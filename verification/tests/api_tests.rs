use monitor::api::{
    apply_layer_update, check_switch, not_found_message, plan_source, switch_request, AddLayerRequest,
    CanvasInfo, LayerInfo, MonitorInfoResponse, SourceDefaults, SourcePlan, SwitchQuery, UpdateLayerRequest,
};
use monitor::canvas::Canvas;
use monitor::config::{preset_input_type, PresetInput, PresetInputType};
use monitor::display::{DisplayAdapter, DisplayMode, MonitorInfo, MonitorRegistry, OutputMap};
use monitor::scene::Scene;
use monitor::source::{desktop_metadata, SourceType};

fn wide(s: &str) -> Vec<u16> {
    s.encode_utf16().chain(std::iter::once(0)).collect()
}

fn registry(with_virtual: bool) -> MonitorRegistry {
    let mut adapters = vec![DisplayAdapter {
        device_name: wide("D1"),
        device_id: wide("pci"),
        attached: true,
        mode: Some(DisplayMode { x: 0, y: 0, width: 1920, height: 1080 }),
    }];
    if with_virtual {
        adapters.push(DisplayAdapter {
            device_name: wide("V"),
            device_id: wide("ROOT\\MTTVDD"),
            attached: true,
            mode: Some(DisplayMode { x: 1920, y: 0, width: 1280, height: 720 }),
        });
    }
    let mut r = MonitorRegistry::new();
    r.refresh(&adapters, &OutputMap::new());
    r
}

fn request(source_type: &str) -> AddLayerRequest {
    AddLayerRequest {
        source_type: source_type.to_string(),
        monitor_key: None,
        z_index: 0,
        x: 0,
        y: 0,
        image_path: None,
        window_title: None,
        width: None,
        height: None,
    }
}

const DEFAULTS: SourceDefaults = SourceDefaults { fps: 30, canvas_width: 1920, canvas_height: 1080 };

#[test]
fn desktop_plan_uses_named_monitor() {
    let mut req = request("desktop");
    req.monitor_key = Some("D1".to_string());
    match plan_source(&req, &DEFAULTS, &registry(true)) {
        Ok(SourcePlan::Desktop { settings, name }) => {
            assert_eq!(name, "D1");
            assert_eq!((settings.output_idx, settings.width, settings.height, settings.fps), (0, 1920, 1080, 30));
            assert!(settings.use_ddagrab);
            assert_eq!((settings.offset_x, settings.offset_y), (0, 0));
        }
        _ => panic!("expected a desktop plan"),
    }
}

#[test]
fn desktop_plan_defaults_to_virtual_monitor() {
    match plan_source(&request("desktop"), &DEFAULTS, &registry(true)) {
        Ok(SourcePlan::Desktop { settings, name }) => {
            assert_eq!(name, "V");
            assert_eq!((settings.output_idx, settings.width, settings.height, settings.offset_x), (1, 1280, 720, 1920));
        }
        _ => panic!("expected a desktop plan"),
    }
}

#[test]
fn desktop_plan_errors() {
    let mut req = request("desktop");
    req.monitor_key = Some("nope".to_string());
    let e = plan_source(&req, &DEFAULTS, &registry(true)).err().unwrap();
    assert_eq!((e.status, e.message.as_str()), (400, "unknown monitor: nope"));
    let e = plan_source(&request("desktop"), &DEFAULTS, &registry(false)).err().unwrap();
    assert_eq!((e.status, e.message.as_str()), (400, "no virtual display found"));
}

#[test]
fn image_plans() {
    let mut req = request("image");
    req.image_path = Some("C:/monitor/media/a.png".to_string());
    match plan_source(&req, &DEFAULTS, &registry(false)) {
        Ok(SourcePlan::ImageFile { path }) => assert_eq!(path, "C:/monitor/media/a.png"),
        _ => panic!("expected an image file"),
    }
    let mut req = request("image");
    req.width = Some(640);
    match plan_source(&req, &DEFAULTS, &registry(false)) {
        Ok(SourcePlan::BlackImage { width, height }) => assert_eq!((width, height), (640, 1080)),
        _ => panic!("expected a black image"),
    }
}

#[test]
fn window_plans() {
    let mut req = request("window");
    req.window_title = Some("Game".to_string());
    req.height = Some(480);
    match plan_source(&req, &DEFAULTS, &registry(false)) {
        Ok(SourcePlan::Window { title, width, height, fps }) => {
            assert_eq!((title.as_str(), width, height, fps), ("Game", 1920, 480, 30))
        }
        _ => panic!("expected a window plan"),
    }
    let e = plan_source(&request("window"), &DEFAULTS, &registry(false)).err().unwrap();
    assert_eq!((e.status, e.message.as_str()), (400, "window_title required"));
}

#[test]
fn unknown_source_type_is_refused() {
    let e = plan_source(&request("media"), &DEFAULTS, &registry(false)).err().unwrap();
    assert_eq!((e.status, e.message.as_str()), (400, "unknown source_type: media"));
}

#[test]
fn update_applies_requested_changes() {
    let mut s: Scene<u8> = Scene::new();
    let a = s.add(1, 0, 0, 0);
    let b = s.add(2, 1, 0, 0);
    let req = UpdateLayerRequest { z_index: Some(5), x: Some(10), y: Some(20), visible: Some(false) };
    assert!(apply_layer_update(&mut s, a, &req));
    let layers = s.iter();
    assert_eq!(layers[0].id, b);
    assert_eq!((layers[1].id, layers[1].z_index, layers[1].x, layers[1].y, layers[1].visible), (a, 5, 10, 20, false));
}

#[test]
fn update_needs_both_coordinates_to_move() {
    let mut s: Scene<u8> = Scene::new();
    let a = s.add(1, 0, 3, 4);
    let req = UpdateLayerRequest { z_index: None, x: Some(10), y: None, visible: None };
    assert!(!apply_layer_update(&mut s, a, &req));
    assert_eq!((s.iter()[0].x, s.iter()[0].y), (3, 4));
}

#[test]
fn update_of_unknown_layer_is_not_found() {
    let mut s: Scene<u8> = Scene::new();
    s.add(1, 0, 0, 0);
    let req = UpdateLayerRequest { z_index: Some(1), x: Some(1), y: Some(1), visible: Some(true) };
    assert!(!apply_layer_update(&mut s, 99, &req));
    assert_eq!(not_found_message(99), "layer 99 not found");
}

#[test]
fn switch_checks() {
    let e = check_switch(&SwitchQuery { preset: None, monitor: None }, true).err().unwrap();
    assert_eq!((e.status, e.message.as_str()), (400, "missing ?preset="));
    let q = SwitchQuery { preset: Some("game".to_string()), monitor: None };
    let e = check_switch(&q, false).err().unwrap();
    assert_eq!((e.status, e.message.as_str()), (400, "unknown preset: game"));
    assert_eq!(check_switch(&q, true).ok().unwrap(), "game");
}

#[test]
fn switch_requests_by_kind() {
    let r = switch_request(PresetInputType::Dxgi, &None, &Some("D1".to_string())).ok().unwrap();
    assert_eq!((r.source_type.as_str(), r.monitor_key.as_deref()), ("desktop", Some("D1")));
    let r = switch_request(PresetInputType::Image, &Some("t".to_string()), &Some("D1".to_string())).ok().unwrap();
    assert_eq!((r.source_type.as_str(), r.monitor_key.is_none(), r.window_title.is_none()), ("image", true, true));
    let r = switch_request(PresetInputType::Window, &Some("Title".to_string()), &None).ok().unwrap();
    assert_eq!((r.source_type.as_str(), r.window_title.as_deref()), ("window", Some("Title")));
    assert_eq!((r.z_index, r.x, r.y), (0, 0, 0));
    let e = switch_request(PresetInputType::Custom, &None, &None).err().unwrap();
    assert_eq!((e.status, e.message.as_str()), (501, "custom presets not yet supported"));
}

#[test]
fn preset_input_kinds() {
    let one = |s: &str| PresetInput::List(vec![Some(s.to_string())]);
    assert_eq!(preset_input_type(&one("__dxgi__")), PresetInputType::Dxgi);
    assert_eq!(preset_input_type(&one("__image__")), PresetInputType::Image);
    assert_eq!(preset_input_type(&one("__window__")), PresetInputType::Window);
    assert_eq!(preset_input_type(&one("-f")), PresetInputType::Custom);
    assert_eq!(preset_input_type(&PresetInput::Other), PresetInputType::Custom);
}

#[test]
fn preset_input_needs_exactly_one_string() {
    let two = PresetInput::List(vec![Some("__dxgi__".to_string()), Some("-i".to_string())]);
    assert_eq!(preset_input_type(&two), PresetInputType::Custom);
    assert_eq!(preset_input_type(&PresetInput::List(vec![])), PresetInputType::Custom);
    assert_eq!(preset_input_type(&PresetInput::List(vec![None])), PresetInputType::Custom);
}

#[test]
fn answers() {
    let c = CanvasInfo::of(&Canvas::new(1280, 720, 60));
    assert_eq!((c.width, c.height, c.fps), (1280, 720, 60));
    let m = MonitorInfo { key: "K".to_string(), index: 2, x: 0, y: 0, w: 2560, h: 1440, is_virtual: true };
    let r = MonitorInfoResponse::of(&m);
    assert_eq!((r.key.as_str(), r.index, r.resolution.as_str(), r.is_virtual), ("K", 2, "2560x1440", true));
    let mut s: Scene<u8> = Scene::new();
    let id = s.add(0, 3, 4, 5);
    let meta = desktop_metadata("D1".to_string(), 10, 10);
    let info = LayerInfo::of(&s.iter()[0], &meta, true);
    assert_eq!((info.id, info.z_index, info.x, info.y, info.visible), (id, 3, 4, 5, true));
    assert_eq!((info.source_type.as_str(), info.source_name.as_str(), info.running), ("Desktop", "D1", true));
    assert_eq!(meta.source_type, SourceType::Desktop);
}
