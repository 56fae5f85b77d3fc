//! Capture and playback sources: their descriptions, the static image source, and the
//! command lines of the capture processes.
use vstd::prelude::*;
use crate::frame::{Frame, frame_len};
use crate::text::{
    decimal, owned, signed_decimal, u32_to_decimal, i32_to_decimal, writes_decimal, writes_signed_decimal,
    lemma_decimal_writes, lemma_signed_decimal_writes,
};

verus! {

/// The kind of a source.
#[derive(Clone, Copy, PartialEq, Eq, Debug)]
pub enum SourceType {
    Desktop,
    Image,
    Window,
    Media,
}

/// The name of a source kind as the status report shows it.
pub open spec fn source_type_label(t: SourceType) -> Seq<char> {
    match t {
        SourceType::Desktop => "Desktop"@,
        SourceType::Image => "Image"@,
        SourceType::Window => "Window"@,
        SourceType::Media => "Media"@,
    }
}

impl SourceType {
    /// The name of this kind as the status report shows it.
    pub fn label(&self) -> (s: String)
        ensures
            s@ == source_type_label(*self),
    {
        match self {
            SourceType::Desktop => String::from_str("Desktop"),
            SourceType::Image => String::from_str("Image"),
            SourceType::Window => String::from_str("Window"),
            SourceType::Media => String::from_str("Media"),
        }
    }
}

/// What a source says about itself.
#[derive(Debug, Clone)]
pub struct SourceMetadata {
    pub name: String,
    pub source_type: SourceType,
    pub native_width: u32,
    pub native_height: u32,
}

/// Capture or playback source.
///
/// Each implementation runs its own reader (if it has one) and hands out the latest frame
/// through `frame` without blocking.
pub trait StreamSource: Send + Sync {
    /// Starts capture or playback.
    fn start(&mut self) -> Result<(), String>;

    /// The source is stopped: it runs no capture and holds nothing that stopping releases.
    spec fn stopped(&self) -> bool;

    /// Stops capture and releases what the source holds.
    fn stop(&mut self) -> (r: Result<(), String>)
        ensures
            final(self).stopped(),
    ;

    /// The most recent frame, or `None` when none has been captured yet.
    fn frame(&self) -> Option<Frame>;

    fn metadata(&self) -> &SourceMetadata;

    fn is_running(&self) -> bool;
}

// ---------- Static image source ----------
/// RGBA pixel bytes with the red and blue channel of every whole pixel exchanged (giving
/// BGRA); bytes after the last whole pixel stay as they are.
pub open spec fn swap_red_blue(rgba: Seq<u8>) -> Seq<u8> {
    Seq::new(
        rgba.len(),
        |k: int|
            {
                let c = k % 4;
                let whole = k - c + 4 <= rgba.len();
                if whole && c == 0 {
                    rgba[k + 2]
                } else if whole && c == 2 {
                    rgba[k - 2]
                } else {
                    rgba[k]
                }
            },
    )
}

/// Static image source: a decoded image held as one frame, or a solid black frame.
pub struct ImageSource {
    frame: Option<Frame>,
    width: u32,
    height: u32,
    path: Option<String>,
    metadata: SourceMetadata,
}

/// What the `image` crate decodes from a file's bytes, the format chosen by the extension of
/// the file's path: the width, the height and the pixels as RGBA bytes, or nothing where the
/// extension names no format it reads or the bytes do not decode.
pub uninterp spec fn decoded_rgba(bytes: Seq<u8>, path: Seq<char>) -> Option<(u32, u32, Seq<u8>)>;

/// Decodes an image file's bytes as `image::open` decodes the file: the format comes from the
/// path's extension (`ImageFormat::from_path`), the bytes are decoded by `ImageReader::decode`
/// and the result converted by `DynamicImage::to_rgba8`. The contract claims only that the
/// result is [`decoded_rgba`] of the bytes and the path; what a format decodes to is left to
/// the crate.
#[verifier::external_body]
fn decode_rgba(bytes: &[u8], path: &str) -> (r: Option<(u32, u32, Vec<u8>)>)
    ensures
        match r {
            Some((w, h, px)) => decoded_rgba(bytes@, path@) == Some((w, h, px@)),
            None => decoded_rgba(bytes@, path@) is None,
        },
{
    let format = image::ImageFormat::from_path(path).ok()?;
    let mut reader = image::ImageReader::new(std::io::Cursor::new(bytes));
    reader.set_format(format);
    let img = reader.decode().ok()?.to_rgba8();
    Some((img.width(), img.height(), img.into_raw()))
}

/// The refusal of an image file that cannot be read or decoded.
pub open spec fn open_error_text(path: Seq<char>) -> Seq<char> {
    "failed to open image: "@ + path
}

/// The refusal of an image file at `path` that cannot be read or decoded.
pub fn image_open_error(path: &str) -> (e: String)
    ensures
        e@ == open_error_text(path@),
{
    let mut e = String::from_str("failed to open image: ");
    e.append(path);
    e
}

/// `s` shows the image at `path` of the given size with the given RGBA pixels: its frame
/// holds them as BGRA, and it describes itself as `image:` and the path.
pub open spec fn shows_image(s: ImageSource, path: Seq<char>, width: u32, height: u32, rgba: Seq<u8>) -> bool {
    &&& s.shown() matches Some(f) && f.width == width && f.height == height
        && f.data@ == swap_red_blue(rgba)
    &&& s.size() == (width, height)
    &&& s.path_view() == Some(path)
    &&& s.meta().name@ == "image:"@ + path
    &&& s.meta().source_type == SourceType::Image
    &&& s.meta().native_width == width
    &&& s.meta().native_height == height
}

impl ImageSource {
    /// The frame this source shows.
    pub closed spec fn shown(&self) -> Option<Frame> {
        self.frame
    }

    /// The image file this source was made from.
    pub closed spec fn path_view(&self) -> Option<Seq<char>> {
        match self.path {
            Some(p) => Some(p@),
            None => None,
        }
    }

    /// The description this source gives of itself.
    pub closed spec fn meta(&self) -> SourceMetadata {
        self.metadata
    }

    /// The source's resolution.
    pub closed spec fn size(&self) -> (u32, u32) {
        (self.width, self.height)
    }

    /// A source for the image read from `path`, given the file's bytes: the image is decoded
    /// with the format that the path's extension names, and the frame holds its pixels as
    /// BGRA. A file that cannot be decoded is refused with "failed to open image: " and the
    /// path.
    pub fn from_file(path: &str, bytes: &[u8]) -> (r: Result<ImageSource, String>)
        ensures
            match decoded_rgba(bytes@, path@) {
                Some((w, h, px)) => r matches Ok(s) && shows_image(s, path@, w, h, px),
                None => r matches Err(e) && e@ == open_error_text(path@),
            },
    {
        match decode_rgba(bytes, path) {
            Some((width, height, rgba)) => Ok(ImageSource::from_rgba(path, width, height, rgba)),
            None => Err(image_open_error(path)),
        }
    }

    /// A source for the image read from `path`, given the image's size and its pixels as
    /// RGBA bytes; the frame holds them as BGRA.
    pub fn from_rgba(path: &str, width: u32, height: u32, rgba: Vec<u8>) -> (s: ImageSource)
        ensures
            shows_image(s, path@, width, height, rgba@),
    {
        let mut data = rgba;
        let ghost input = data@;
        let n = data.len();
        let mut i: usize = 0;
        while n - i >= 4
            invariant
                n == data@.len(),
                n == input.len(),
                i % 4 == 0,
                i <= n,
                forall|k: int| 0 <= k < i ==> #[trigger] data@[k] == swap_red_blue(input)[k],
                forall|k: int| i <= k < n ==> #[trigger] data@[k] == input[k],
            decreases n - i,
        {
            assert(i + 4 <= n);
            let r = data[i];
            let b = data[i + 2];
            data.set(i, b);
            data.set(i + 2, r);
            i = i + 4;
        }
        assert forall|k: int| i <= k < n implies #[trigger] data@[k] == swap_red_blue(input)[k] by {
            assert(k - k % 4 + 4 > n);
        }
        assert(data@ =~= swap_red_blue(input));
        let mut name = String::from_str("image:");
        name.append(path);
        ImageSource {
            frame: Some(Frame { data, width, height }),
            width,
            height,
            path: Some(String::from_str(path)),
            metadata: SourceMetadata {
                name,
                source_type: SourceType::Image,
                native_width: width,
                native_height: height,
            },
        }
    }

    /// A solid black frame at the given resolution.
    pub fn black(width: u32, height: u32) -> (s: ImageSource)
        requires
            frame_len(width as int, height as int) <= u32::MAX,
        ensures
            s.shown() matches Some(f) && f.wf() && f.width == width && f.height == height
                && forall|k: int| 0 <= k < f.data@.len() ==> f.data@[k] == 0,
            s.size() == (width, height),
            s.path_view() is None,
            s.meta().name@ == "image:black"@,
            s.meta().source_type == SourceType::Image,
            s.meta().native_width == width,
            s.meta().native_height == height,
    {
        ImageSource {
            frame: Some(Frame::new_black(width, height)),
            width,
            height,
            path: None,
            metadata: SourceMetadata {
                name: String::from_str("image:black"),
                source_type: SourceType::Image,
                native_width: width,
                native_height: height,
            },
        }
    }
}

impl StreamSource for ImageSource {
    /// A static image runs no capture and holds nothing to release, so it is always stopped.
    open spec fn stopped(&self) -> bool {
        true
    }

    fn start(&mut self) -> (r: Result<(), String>)
        ensures
            r is Ok,
    {
        Ok(())
    }

    fn stop(&mut self) -> (r: Result<(), String>)
        ensures
            r is Ok,
    {
        Ok(())
    }

    fn frame(&self) -> (r: Option<Frame>)
        ensures
            r is Some <==> self.shown() is Some,
            r matches Some(f) ==> f.data@ == self.shown()->Some_0.data@ && f.width
                == self.shown()->Some_0.width && f.height == self.shown()->Some_0.height,
    {
        match &self.frame {
            Some(f) => Some(f.duplicate()),
            None => None,
        }
    }

    fn metadata(&self) -> (m: &SourceMetadata)
        ensures
            *m == self.meta(),
    {
        &self.metadata
    }

    fn is_running(&self) -> (b: bool)
        ensures
            b == self.shown() is Some,
    {
        self.frame.is_some()
    }
}

/// Exchanging the red and blue channels twice gives back the bytes it started from.
pub proof fn lemma_swap_red_blue_twice(rgba: Seq<u8>)
    ensures
        swap_red_blue(swap_red_blue(rgba)) == rgba,
{
    let once = swap_red_blue(rgba);
    let twice = swap_red_blue(once);
    assert forall|k: int| 0 <= k < rgba.len() implies twice[k] == rgba[k] by {
        let c = k % 4;
        if c == 0 {
            assert((k + 2) % 4 == 2);
            assert((k + 2) - 2 == k);
        } else if c == 2 {
            assert((k - 2) % 4 == 0);
        }
    }
    assert(twice =~= rgba);
}

// ---------- Capture command lines ----------
/// The views of a list of strings.
pub open spec fn views(v: Seq<String>) -> Seq<Seq<char>> {
    v.map_values(|s: String| s@)
}

/// Settings of a desktop capture.
pub struct DesktopSettings {
    /// Output index for the desktop duplication grabber.
    pub output_idx: u32,
    pub width: u32,
    pub height: u32,
    pub fps: u32,
    /// Use the desktop duplication grabber; otherwise the GDI grabber with an offset.
    pub use_ddagrab: bool,
    pub offset_x: i32,
    pub offset_y: i32,
}

/// The capture process's arguments for a desktop capture, which writes raw BGRA frames to
/// its standard output.
pub open spec fn desktop_args(s: DesktopSettings) -> Seq<Seq<char>> {
    if s.use_ddagrab {
        seq![
            "-f"@, "lavfi"@, "-i"@,
            "ddagrab=output_idx="@ + decimal(s.output_idx as nat) + ":framerate="@ + decimal(s.fps as nat) + ":draw_mouse=0"@,
            "-vf"@, "hwdownload,format=bgra"@, "-f"@, "rawvideo"@, "-pix_fmt"@, "bgra"@, "pipe:1"@,
        ]
    } else {
        seq![
            "-f"@, "gdigrab"@, "-framerate"@, decimal(s.fps as nat),
            "-offset_x"@, signed_decimal(s.offset_x as int), "-offset_y"@, signed_decimal(s.offset_y as int),
            "-video_size"@, decimal(s.width as nat) + "x"@ + decimal(s.height as nat),
            "-i"@, "desktop"@, "-vf"@, "format=bgra"@, "-f"@, "rawvideo"@, "-pix_fmt"@, "bgra"@, "pipe:1"@,
        ]
    }
}

impl DesktopSettings {
    /// The capture process's arguments (after the leading `-y`).
    pub fn build_ffmpeg_args(&self) -> (v: Vec<String>)
        ensures
            views(v@) == desktop_args(*self),
    {
        let mut v: Vec<String> = Vec::new();
        if self.use_ddagrab {
            v.push(owned("-f"));
            v.push(owned("lavfi"));
            v.push(owned("-i"));
            let mut grab = owned("ddagrab=output_idx=");
            grab.append(u32_to_decimal(self.output_idx).as_str());
            grab.append(":framerate=");
            grab.append(u32_to_decimal(self.fps).as_str());
            grab.append(":draw_mouse=0");
            v.push(grab);
            v.push(owned("-vf"));
            v.push(owned("hwdownload,format=bgra"));
            v.push(owned("-f"));
            v.push(owned("rawvideo"));
            v.push(owned("-pix_fmt"));
            v.push(owned("bgra"));
            v.push(owned("pipe:1"));
        } else {
            v.push(owned("-f"));
            v.push(owned("gdigrab"));
            v.push(owned("-framerate"));
            v.push(u32_to_decimal(self.fps));
            v.push(owned("-offset_x"));
            v.push(i32_to_decimal(self.offset_x));
            v.push(owned("-offset_y"));
            v.push(i32_to_decimal(self.offset_y));
            v.push(owned("-video_size"));
            let mut size = u32_to_decimal(self.width);
            size.append("x");
            size.append(u32_to_decimal(self.height).as_str());
            v.push(size);
            v.push(owned("-i"));
            v.push(owned("desktop"));
            v.push(owned("-vf"));
            v.push(owned("format=bgra"));
            v.push(owned("-f"));
            v.push(owned("rawvideo"));
            v.push(owned("-pix_fmt"));
            v.push(owned("bgra"));
            v.push(owned("pipe:1"));
        }
        assert(views(v@) =~= desktop_args(*self));
        v
    }
}

/// The description of a desktop capture of the given size.
pub fn desktop_metadata(name: String, width: u32, height: u32) -> (m: SourceMetadata)
    ensures
        m.name@ == name@,
        m.source_type == SourceType::Desktop,
        m.native_width == width,
        m.native_height == height,
{
    SourceMetadata { name, source_type: SourceType::Desktop, native_width: width, native_height: height }
}

/// The capture process's arguments for a capture of the window titled `title`.
pub open spec fn window_args(title: Seq<char>, fps: u32) -> Seq<Seq<char>> {
    seq![
        "-y"@, "-f"@, "gdigrab"@, "-framerate"@, decimal(fps as nat), "-i"@, "title="@ + title,
        "-vf"@, "scale=trunc(iw/2)*2:trunc(ih/2)*2,format=bgra"@, "-f"@, "rawvideo"@,
        "-pix_fmt"@, "bgra"@, "pipe:1"@,
    ]
}

/// The capture process's arguments for a capture of the window titled `title`; the scale
/// filter makes both dimensions even.
pub fn window_capture_args(title: &str, fps: u32) -> (v: Vec<String>)
    ensures
        views(v@) == window_args(title@, fps),
{
    let mut v: Vec<String> = Vec::new();
    v.push(owned("-y"));
    v.push(owned("-f"));
    v.push(owned("gdigrab"));
    v.push(owned("-framerate"));
    v.push(u32_to_decimal(fps));
    v.push(owned("-i"));
    let mut t = owned("title=");
    t.append(title);
    v.push(t);
    v.push(owned("-vf"));
    v.push(owned("scale=trunc(iw/2)*2:trunc(ih/2)*2,format=bgra"));
    v.push(owned("-f"));
    v.push(owned("rawvideo"));
    v.push(owned("-pix_fmt"));
    v.push(owned("bgra"));
    v.push(owned("pipe:1"));
    assert(views(v@) =~= window_args(title@, fps));
    v
}

/// The description of a capture of the window titled `title`.
pub fn window_metadata(title: &str, width: u32, height: u32) -> (m: SourceMetadata)
    ensures
        m.name@ == "window:"@ + title@,
        m.source_type == SourceType::Window,
        m.native_width == width,
        m.native_height == height,
{
    let mut name = owned("window:");
    name.append(title);
    SourceMetadata { name, source_type: SourceType::Window, native_width: width, native_height: height }
}

// ---------- Reading whole frames from a byte stream ----------
/// What one read from the capture process's output gave.
pub enum ReadEvent {
    /// `n` bytes arrived (zero at the end of the stream).
    Data(usize),
    /// The read was interrupted before any byte arrived.
    Interrupted,
    /// The read failed.
    Failed,
}

/// What to do after a read.
#[derive(PartialEq, Eq, Structural)]
pub enum ReadStep {
    /// Read again into the rest of the buffer.
    Continue,
    /// The buffer is full.
    Filled,
    /// The stream ended before the buffer was full.
    EndOfStream,
    /// The read failed; give up with its error.
    Failed,
}

/// Progress in filling a buffer of `len` bytes with exactly `len` bytes of a stream.
pub struct ExactRead {
    filled: usize,
    len: usize,
}

impl ExactRead {
    pub closed spec fn filled_spec(&self) -> usize {
        self.filled
    }

    pub closed spec fn len_spec(&self) -> usize {
        self.len
    }

    /// Nothing read yet into a buffer of `len` bytes.
    pub fn new(len: usize) -> (r: ExactRead)
        ensures
            r.filled_spec() == 0,
            r.len_spec() == len,
    {
        ExactRead { filled: 0, len }
    }

    /// Bytes of the buffer filled so far; the next read goes to the rest of it.
    pub fn filled(&self) -> (n: usize)
        ensures
            n == self.filled_spec(),
    {
        self.filled
    }

    /// Whether the buffer still has room.
    pub fn needs_more(&self) -> (b: bool)
        ensures
            b == (self.filled_spec() < self.len_spec()),
    {
        self.filled < self.len
    }

    /// Accounts for one read into the unfilled rest of the buffer.
    pub fn on_read(&mut self, event: ReadEvent) -> (step: ReadStep)
        requires
            old(self).filled_spec() < old(self).len_spec(),
            event matches ReadEvent::Data(n) ==> n <= old(self).len_spec() - old(self).filled_spec(),
        ensures
            final(self).len_spec() == old(self).len_spec(),
            match event {
                ReadEvent::Data(n) => if n == 0 {
                    step == ReadStep::EndOfStream && final(self).filled_spec() == old(self).filled_spec()
                } else {
                    &&& final(self).filled_spec() == old(self).filled_spec() + n
                    &&& step == (if final(self).filled_spec() == final(self).len_spec() {
                        ReadStep::Filled
                    } else {
                        ReadStep::Continue
                    })
                },
                ReadEvent::Interrupted => step == ReadStep::Continue && final(self).filled_spec()
                    == old(self).filled_spec(),
                ReadEvent::Failed => step == ReadStep::Failed && final(self).filled_spec()
                    == old(self).filled_spec(),
            },
    {
        match event {
            ReadEvent::Data(n) => {
                if n == 0 {
                    ReadStep::EndOfStream
                } else {
                    self.filled = self.filled + n;
                    if self.filled == self.len {
                        ReadStep::Filled
                    } else {
                        ReadStep::Continue
                    }
                }
            },
            ReadEvent::Interrupted => ReadStep::Continue,
            ReadEvent::Failed => ReadStep::Failed,
        }
    }
}

/// The GDI desktop grabber captures the region at the display's position and size: its
/// offsets are the signed display position (a leading `-` exactly for a display left of or
/// above the primary one), its video size is width `x` height, and its frame rate is the
/// configured rate.
pub proof fn lemma_gdigrab_region(s: DesktopSettings)
    requires
        !s.use_ddagrab,
    ensures
        ({
            let a = desktop_args(s);
            &&& a[2] == "-framerate"@
            &&& writes_decimal(a[3], s.fps as int)
            &&& a[4] == "-offset_x"@
            &&& writes_signed_decimal(a[5], s.offset_x as int)
            &&& a[6] == "-offset_y"@
            &&& writes_signed_decimal(a[7], s.offset_y as int)
            &&& a[8] == "-video_size"@
            &&& exists|w: Seq<char>, h: Seq<char>| a[9] == w + "x"@ + h
                && writes_decimal(w, s.width as int) && writes_decimal(h, s.height as int)
        }),
{
    lemma_decimal_writes(s.fps as nat);
    lemma_signed_decimal_writes(s.offset_x as int);
    lemma_signed_decimal_writes(s.offset_y as int);
    lemma_decimal_writes(s.width as nat);
    lemma_decimal_writes(s.height as nat);
    let a = desktop_args(s);
    assert(a[9] == decimal(s.width as nat) + "x"@ + decimal(s.height as nat));
}

/// The desktop duplication grabber reads the configured output at the configured frame
/// rate: its filter source is `ddagrab=output_idx=` and the output index, `:framerate=` and
/// the rate, then `:draw_mouse=0`.
pub proof fn lemma_ddagrab_source(s: DesktopSettings)
    requires
        s.use_ddagrab,
    ensures
        ({
            let a = desktop_args(s);
            &&& a[2] == "-i"@
            &&& exists|o: Seq<char>, r: Seq<char>|
                a[3] == "ddagrab=output_idx="@ + o + ":framerate="@ + r + ":draw_mouse=0"@
                && writes_decimal(o, s.output_idx as int) && writes_decimal(r, s.fps as int)
        }),
{
    lemma_decimal_writes(s.output_idx as nat);
    lemma_decimal_writes(s.fps as nat);
    let a = desktop_args(s);
    assert(a[3] == "ddagrab=output_idx="@ + decimal(s.output_idx as nat) + ":framerate="@
        + decimal(s.fps as nat) + ":draw_mouse=0"@);
}

/// A window capture grabs the window of exactly the given title at the given frame rate.
pub proof fn lemma_window_capture_target(title: Seq<char>, fps: u32)
    ensures
        ({
            let a = window_args(title, fps);
            &&& a[3] == "-framerate"@
            &&& writes_decimal(a[4], fps as int)
            &&& a[5] == "-i"@
            &&& a[6] == "title="@ + title
        }),
{
    lemma_decimal_writes(fps as nat);
}

} // verus!
