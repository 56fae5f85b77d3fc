//! The control interface's requests and answers, and the decisions its handlers make.
use vstd::prelude::*;
use crate::canvas::Canvas;
use crate::config::PresetInputType;
use crate::display::{MonitorInfo, MonitorModel, MonitorRegistry, lookup, monitor_keyfn, first_virtual};
use crate::scene::{
    Layer, LayerId, Scene, has_id, position_of, reordered, moved, shown, stable_slot, ids_distinct, sorted_by_z,
    lemma_reordered_keeps_ids_distinct, lemma_reorder_sets_z, lemma_set_position_places_layer,
    lemma_set_visible_sets_flag,
};
use crate::source::{DesktopSettings, SourceMetadata, source_type_label};
use crate::text::{decimal, owned, u32_to_decimal, u64_to_decimal};

verus! {

// ---------- Answers ----------
/// The canvas's resolution and frame rate.
pub struct CanvasInfo {
    pub width: u32,
    pub height: u32,
    pub fps: u32,
}

/// One layer as the status report shows it.
pub struct LayerInfo {
    pub id: u64,
    pub z_index: i32,
    pub x: i32,
    pub y: i32,
    pub visible: bool,
    pub source_type: String,
    pub source_name: String,
    pub running: bool,
}

/// The canvas and the layers in z-order.
pub struct StatusResponse {
    pub canvas: CanvasInfo,
    pub layers: Vec<LayerInfo>,
}

/// One display as the display listing shows it.
pub struct MonitorInfoResponse {
    pub key: String,
    pub index: u32,
    pub resolution: String,
    pub is_virtual: bool,
}

impl CanvasInfo {
    /// The canvas's resolution and frame rate.
    pub fn of(canvas: &Canvas) -> (c: CanvasInfo)
        ensures
            c.width == canvas.width,
            c.height == canvas.height,
            c.fps == canvas.fps,
    {
        CanvasInfo { width: canvas.width, height: canvas.height, fps: canvas.fps }
    }
}

impl LayerInfo {
    /// The status entry of a layer whose source describes itself as `meta` and is running
    /// or not.
    pub fn of<S>(layer: &Layer<S>, meta: &SourceMetadata, running: bool) -> (l: LayerInfo)
        ensures
            l.id == layer.id,
            l.z_index == layer.z_index,
            l.x == layer.x,
            l.y == layer.y,
            l.visible == layer.visible,
            l.source_type@ == source_type_label(meta.source_type),
            l.source_name@ == meta.name@,
            l.running == running,
    {
        LayerInfo {
            id: layer.id,
            z_index: layer.z_index,
            x: layer.x,
            y: layer.y,
            visible: layer.visible,
            source_type: meta.source_type.label(),
            source_name: meta.name.clone(),
            running,
        }
    }
}

impl MonitorInfoResponse {
    /// The listing entry of a display; its resolution reads `WxH`.
    pub fn of(m: &MonitorInfo) -> (r: MonitorInfoResponse)
        ensures
            r.key@ == m.key@,
            r.index == m.index,
            r.resolution@ == decimal(m.w as nat) + "x"@ + decimal(m.h as nat),
            r.is_virtual == m.is_virtual,
    {
        let mut resolution = u32_to_decimal(m.w);
        resolution.append("x");
        resolution.append(u32_to_decimal(m.h).as_str());
        MonitorInfoResponse { key: m.key.clone(), index: m.index, resolution, is_virtual: m.is_virtual }
    }
}

// ---------- Requests ----------
/// A request for a new layer.
pub struct AddLayerRequest {
    /// `desktop`, `image` or `window`.
    pub source_type: String,
    pub monitor_key: Option<String>,
    pub z_index: i32,
    pub x: i32,
    pub y: i32,
    pub image_path: Option<String>,
    pub window_title: Option<String>,
    pub width: Option<u32>,
    pub height: Option<u32>,
}

/// A request to change a layer; absent fields are left as they are.
pub struct UpdateLayerRequest {
    pub z_index: Option<i32>,
    pub x: Option<i32>,
    pub y: Option<i32>,
    pub visible: Option<bool>,
}

/// The query of a preset switch.
pub struct SwitchQuery {
    pub preset: Option<String>,
    pub monitor: Option<String>,
}

/// A request to change the canvas resolution.
pub struct CanvasRequest {
    pub width: u32,
    pub height: u32,
}

/// A refused request: the status code and the message of the answer.
pub struct ApiError {
    pub status: u16,
    pub message: String,
}

/// `r` is a refusal with the given status and message.
pub open spec fn refused<T>(r: Result<T, ApiError>, status: u16, message: Seq<char>) -> bool {
    r matches Err(e) && e.status == status && e.message@ == message
}

fn error(status: u16, message: String) -> (e: ApiError)
    ensures
        e.status == status,
        e.message@ == message@,
{
    ApiError { status, message }
}

fn copy_opt(o: &Option<String>) -> (r: Option<String>)
    ensures
        r is Some <==> o is Some,
        r matches Some(s) ==> s@ == o->Some_0@,
{
    match o {
        Some(s) => Some(s.clone()),
        None => None,
    }
}

// ---------- Choosing a source ----------
/// The settings the configuration gives to new sources.
pub struct SourceDefaults {
    pub fps: u32,
    pub canvas_width: u32,
    pub canvas_height: u32,
}

/// The source a request for a new layer asks for.
pub enum SourcePlan {
    /// Capture the display `name` with these settings.
    Desktop { settings: DesktopSettings, name: String },
    /// Show the image in this file.
    ImageFile { path: String },
    /// Show a black frame of this size.
    BlackImage { width: u32, height: u32 },
    /// Capture the window with this title.
    Window { title: String, width: u32, height: u32, fps: u32 },
}

/// `r` plans a capture of display `m` with the duplication grabber at frame rate `fps`.
pub open spec fn plans_desktop(r: Result<SourcePlan, ApiError>, m: MonitorModel, fps: u32) -> bool {
    r matches Ok(SourcePlan::Desktop { settings, name }) && name@ == m.key && settings == DesktopSettings {
        output_idx: m.index,
        width: m.w,
        height: m.h,
        fps: fps,
        use_ddagrab: true,
        offset_x: m.x,
        offset_y: m.y,
    }
}

/// The given value, or the default.
pub open spec fn or_default(v: Option<u32>, d: u32) -> u32 {
    match v {
        Some(x) => x,
        None => d,
    }
}

/// Decides which source a request for a new layer asks for, or why it is refused:
/// a desktop capture of the named display (or of the first virtual display when none is
/// named), an image file or a black frame, or a window capture; sizes not given in the
/// request default to the canvas size.
pub fn plan_source(req: &AddLayerRequest, defaults: &SourceDefaults, registry: &MonitorRegistry) -> (r: Result<SourcePlan, ApiError>)
    requires
        registry.wf(),
    ensures
        req.source_type@ == "desktop"@ ==> match req.monitor_key {
            Some(k) => match lookup(registry@, monitor_keyfn(), k@) {
                Some(m) => plans_desktop(r, m, defaults.fps),
                None => refused(r, 400, "unknown monitor: "@ + k@),
            },
            None => match first_virtual(registry@) {
                Some(m) => plans_desktop(r, m, defaults.fps),
                None => refused(r, 400, "no virtual display found"@),
            },
        },
        req.source_type@ == "image"@ ==> match req.image_path {
            Some(p) => r matches Ok(SourcePlan::ImageFile { path }) && path@ == p@,
            None => r == Ok::<SourcePlan, ApiError>(SourcePlan::BlackImage {
                width: or_default(req.width, defaults.canvas_width),
                height: or_default(req.height, defaults.canvas_height),
            }),
        },
        req.source_type@ == "window"@ ==> match req.window_title {
            Some(t) => r matches Ok(SourcePlan::Window { title, width, height, fps }) && title@ == t@
                && width == or_default(req.width, defaults.canvas_width)
                && height == or_default(req.height, defaults.canvas_height)
                && fps == defaults.fps,
            None => refused(r, 400, "window_title required"@),
        },
        req.source_type@ != "desktop"@ && req.source_type@ != "image"@ && req.source_type@ != "window"@
            ==> refused(r, 400, "unknown source_type: "@ + req.source_type@),
{
    proof {
        reveal_strlit("desktop");
        reveal_strlit("image");
        reveal_strlit("window");
        assert("desktop"@[0] == 'd' && "image"@[0] == 'i' && "window"@[0] == 'w');
    }
    if req.source_type == owned("desktop") {
        let found = match &req.monitor_key {
            Some(key) => match registry.get(key) {
                Some(m) => m,
                None => {
                    let mut msg = owned("unknown monitor: ");
                    msg.append(key.as_str());
                    return Err(error(400, msg));
                },
            },
            None => match registry.get_virtual() {
                Some(m) => m,
                None => {
                    return Err(error(400, owned("no virtual display found")));
                },
            },
        };
        let settings = DesktopSettings {
            output_idx: found.index,
            width: found.w,
            height: found.h,
            fps: defaults.fps,
            use_ddagrab: true,
            offset_x: found.x,
            offset_y: found.y,
        };
        Ok(SourcePlan::Desktop { settings, name: found.key })
    } else if req.source_type == owned("image") {
        match &req.image_path {
            Some(p) => Ok(SourcePlan::ImageFile { path: p.clone() }),
            None => {
                let width = match req.width {
                    Some(w) => w,
                    None => defaults.canvas_width,
                };
                let height = match req.height {
                    Some(h) => h,
                    None => defaults.canvas_height,
                };
                Ok(SourcePlan::BlackImage { width, height })
            },
        }
    } else if req.source_type == owned("window") {
        match &req.window_title {
            Some(t) => {
                let width = match req.width {
                    Some(w) => w,
                    None => defaults.canvas_width,
                };
                let height = match req.height {
                    Some(h) => h,
                    None => defaults.canvas_height,
                };
                Ok(SourcePlan::Window { title: t.clone(), width, height, fps: defaults.fps })
            },
            None => Err(error(400, owned("window_title required"))),
        }
    } else {
        let mut msg = owned("unknown source_type: ");
        msg.append(req.source_type.as_str());
        Err(error(400, msg))
    }
}

// ---------- Changing a layer ----------
/// The layers after an update request: the z-index change first, then the position (only
/// when both coordinates are given), then the visibility.
pub open spec fn updated<S>(s: Seq<Layer<S>>, id: LayerId, req: UpdateLayerRequest) -> Seq<Layer<S>> {
    let s1 = match req.z_index {
        Some(z) => if has_id(s, id) { reordered(s, id, z) } else { s },
        None => s,
    };
    let s2 = match (req.x, req.y) {
        (Some(x), Some(y)) => if has_id(s1, id) { moved(s1, id, x, y) } else { s1 },
        _ => s1,
    };
    match req.visible {
        Some(v) => if has_id(s2, id) { shown(s2, id, v) } else { s2 },
        None => s2,
    }
}

/// Whether an update request asks for any change.
pub open spec fn asks_change(req: UpdateLayerRequest) -> bool {
    req.z_index is Some || (req.x is Some && req.y is Some) || req.visible is Some
}

/// Applies an update request to the layer with identifier `id`. Returns whether such a
/// layer exists and the request asked for a change; the scene is unchanged when it does not.
pub fn apply_layer_update<S>(scene: &mut Scene<S>, id: LayerId, req: &UpdateLayerRequest) -> (found: bool)
    requires
        old(scene).wf(),
    ensures
        final(scene).wf(),
        final(scene).next_id() == old(scene).next_id(),
        found == (has_id(old(scene)@, id) && asks_change(*req)),
        final(scene)@ == updated(old(scene)@, id, *req),
{
    let ghost s0 = scene@;
    let mut found = false;
    if let Some(z) = req.z_index {
        found = scene.reorder(id, z) || found;
        proof {
            if has_id(s0, id) {
                lemma_reordered_keeps_id(s0, id, z);
            }
        }
    }
    let ghost s1 = scene@;
    match (req.x, req.y) {
        (Some(x), Some(y)) => {
            found = scene.set_position(id, x, y) || found;
            proof {
                if has_id(s1, id) {
                    lemma_update_keeps_id(s1, id, Layer { x: x, y: y, ..s1[position_of(s1, id)] });
                }
            }
        },
        _ => {},
    }
    if let Some(v) = req.visible {
        found = scene.set_visible(id, v) || found;
    }
    found
}

/// An update request is applied to the layer it names: afterwards that layer has the
/// z-index, the position and the visibility that the request gives (the position only when
/// both coordinates are given), and keeps its source.
pub proof fn lemma_update_applies_request<S>(s: Seq<Layer<S>>, id: LayerId, req: UpdateLayerRequest)
    requires
        sorted_by_z(s),
        ids_distinct(s),
        has_id(s, id),
    ensures
        has_id(updated(s, id, req), id),
        forall|j: int| 0 <= j < updated(s, id, req).len() && (#[trigger] updated(s, id, req)[j]).id == id ==> {
            let l = updated(s, id, req)[j];
            &&& (req.z_index matches Some(z) ==> l.z_index == z)
            &&& (req.x is Some && req.y is Some ==> l.x == req.x->Some_0)
            &&& (req.x is Some && req.y is Some ==> l.y == req.y->Some_0)
            &&& (req.visible matches Some(v) ==> l.visible == v)
            &&& l.source == s[position_of(s, id)].source
        },
{
    let o = s[position_of(s, id)];
    let s1 = match req.z_index {
        Some(z) => reordered(s, id, z),
        None => s,
    };
    // The layer named `id` in `s1`, with what the reorder step promised of it.
    if let Some(z) = req.z_index {
        lemma_reorder_sets_z(s, id, z);
        lemma_reordered_keeps_ids_distinct(s, id, z);
        lemma_reordered_keeps_id(s, id, z);
    }
    let i1 = position_of(s1, id);
    assert(0 <= i1 < s1.len() && s1[i1].id == id);
    assert(ids_distinct(s1));
    assert(s1[i1].source == o.source);
    assert(req.z_index matches Some(z) ==> s1[i1].z_index == z);
    let s2 = match (req.x, req.y) {
        (Some(x), Some(y)) => moved(s1, id, x, y),
        _ => s1,
    };
    if let (Some(x), Some(y)) = (req.x, req.y) {
        lemma_set_position_places_layer(s1, id, x, y);
        lemma_update_keeps_id(s1, id, Layer { x: x, y: y, ..s1[i1] });
        assert(moved(s1, id, x, y) == s1.update(i1, Layer { x: x, y: y, ..s1[i1] }));
        assert forall|a: int, b: int| 0 <= a < s2.len() && 0 <= b < s2.len() && a != b implies #[trigger] s2[a].id
            != #[trigger] s2[b].id by {
            assert(s2[a].id == s1[a].id);
            assert(s2[b].id == s1[b].id);
        }
    }
    let i2 = position_of(s2, id);
    assert(0 <= i2 < s2.len() && s2[i2].id == id);
    assert(ids_distinct(s2));
    assert(s2[i2] == s1[i2] || (req.x is Some && req.y is Some));
    assert(s2.len() == s1.len());
    assert(s1[i2].id == id ==> i2 == i1) by {
        if s1[i2].id == id {
            crate::scene::lemma_position_is(s1, id, i2);
        }
    }
    let t = updated(s, id, req);
    if let Some(v) = req.visible {
        lemma_set_visible_sets_flag(s2, id, v);
        assert(t == shown(s2, id, v));
        assert(t[i2].id == id);
    } else {
        assert(t == s2);
    }
    assert forall|j: int| 0 <= j < t.len() && (#[trigger] t[j]).id == id implies {
        let l = t[j];
        &&& (req.z_index matches Some(z) ==> l.z_index == z)
        &&& (req.x is Some && req.y is Some ==> l.x == req.x->Some_0)
        &&& (req.x is Some && req.y is Some ==> l.y == req.y->Some_0)
        &&& (req.visible matches Some(v) ==> l.visible == v)
        &&& l.source == o.source
    } by {
        crate::scene::lemma_position_is(t, id, j);
    }
}

/// Moving a layer to another z-index keeps it in the scene.
proof fn lemma_reordered_keeps_id<S>(s: Seq<Layer<S>>, id: LayerId, z: i32)
    requires
        crate::scene::sorted_by_z(s),
        has_id(s, id),
    ensures
        has_id(reordered(s, id, z), id),
{
    let i = position_of(s, id);
    let rest = s.remove(i);
    crate::scene::lemma_slot_splits(rest, z as int, i);
    let p = stable_slot(rest, z as int, i);
    let t = reordered(s, id, z);
    assert(t[p].id == id);
}

/// Replacing the layer with identifier `id` by one with the same identifier keeps it.
proof fn lemma_update_keeps_id<S>(s: Seq<Layer<S>>, id: LayerId, l: Layer<S>)
    requires
        has_id(s, id),
        l.id == id,
    ensures
        has_id(s.update(position_of(s, id), l), id),
{
    let i = position_of(s, id);
    assert(s.update(i, l)[i].id == id);
}

/// The message of the answer when no layer has identifier `id`: `layer ID not found`.
pub fn not_found_message(id: LayerId) -> (s: String)
    ensures
        s@ == "layer "@ + decimal(id as nat) + " not found"@,
{
    let mut s = owned("layer ");
    s.append(u64_to_decimal(id).as_str());
    s.append(" not found");
    s
}

// ---------- Switching presets ----------
/// Checks a preset switch's query: the preset must be named, and `known` tells whether the
/// configuration has a preset of that name. Gives the preset's name.
pub fn check_switch(q: &SwitchQuery, known: bool) -> (r: Result<String, ApiError>)
    ensures
        match q.preset {
            None => refused(r, 400, "missing ?preset="@),
            Some(n) => if known {
                r matches Ok(name) && name@ == n@
            } else {
                refused(r, 400, "unknown preset: "@ + n@)
            },
        },
{
    match &q.preset {
        None => Err(error(400, owned("missing ?preset="))),
        Some(n) => {
            if known {
                Ok(n.clone())
            } else {
                let mut msg = owned("unknown preset: ");
                msg.append(n.as_str());
                Err(error(400, msg))
            }
        },
    }
}

/// The layer request that a preset of the given kind stands for: a desktop capture (of the
/// display named in the query, if any), a black image, or a window capture with the
/// preset's window title, each at z-index 0 and position (0, 0). Custom presets are not
/// supported.
pub fn switch_request(kind: PresetInputType, window_title: &Option<String>, monitor: &Option<String>) -> (r: Result<AddLayerRequest, ApiError>)
    ensures
        kind == PresetInputType::Custom ==> refused(r, 501, "custom presets not yet supported"@),
        kind != PresetInputType::Custom ==> (r matches Ok(req) && {
            &&& req.z_index == 0 && req.x == 0 && req.y == 0
            &&& req.image_path is None && req.width is None && req.height is None
            &&& req.source_type@ == (match kind {
                PresetInputType::Dxgi => "desktop"@,
                PresetInputType::Image => "image"@,
                _ => "window"@,
            })
            &&& (req.monitor_key is Some <==> (kind == PresetInputType::Dxgi && monitor is Some))
            &&& (req.monitor_key matches Some(k) ==> k@ == monitor->Some_0@)
            &&& (req.window_title is Some <==> (kind == PresetInputType::Window && window_title is Some))
            &&& (req.window_title matches Some(t) ==> t@ == window_title->Some_0@)
        }),
{
    match kind {
        PresetInputType::Dxgi => Ok(AddLayerRequest {
            source_type: owned("desktop"),
            monitor_key: copy_opt(monitor),
            z_index: 0,
            x: 0,
            y: 0,
            image_path: None,
            window_title: None,
            width: None,
            height: None,
        }),
        PresetInputType::Image => Ok(AddLayerRequest {
            source_type: owned("image"),
            monitor_key: None,
            z_index: 0,
            x: 0,
            y: 0,
            image_path: None,
            window_title: None,
            width: None,
            height: None,
        }),
        PresetInputType::Window => Ok(AddLayerRequest {
            source_type: owned("window"),
            monitor_key: None,
            z_index: 0,
            x: 0,
            y: 0,
            image_path: None,
            window_title: copy_opt(window_title),
            width: None,
            height: None,
        }),
        PresetInputType::Custom => Err(error(501, owned("custom presets not yet supported"))),
    }
}

} // verus!
