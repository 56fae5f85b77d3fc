use monitor::source::{
    desktop_metadata, window_capture_args, window_metadata, DesktopSettings, ExactRead, ImageSource,
    ReadEvent, ReadStep, SourceType, StreamSource,
};

#[test]
fn image_from_rgba_swaps_red_and_blue() {
    let rgba = vec![1, 2, 3, 4, 5, 6, 7, 8];
    let mut src = ImageSource::from_rgba("logo.png", 2, 1, rgba);
    let f = src.frame().expect("image frame");
    assert_eq!(f.data, vec![3, 2, 1, 4, 7, 6, 5, 8]);
    assert_eq!((f.width, f.height), (2, 1));
    let m = src.metadata();
    assert_eq!(m.name, "image:logo.png");
    assert_eq!(m.source_type, SourceType::Image);
    assert_eq!((m.native_width, m.native_height), (2, 1));
    assert!(src.is_running());
    assert!(src.start().is_ok());
    assert!(src.stop().is_ok());
}

#[test]
fn swapping_channels_twice_gives_back_the_image() {
    let rgba: Vec<u8> = (0..32).collect();
    let once = ImageSource::from_rgba("a", 4, 2, rgba.clone()).frame().unwrap().data;
    let twice = ImageSource::from_rgba("a", 4, 2, once).frame().unwrap().data;
    assert_eq!(twice, rgba);
}

#[test]
fn bytes_after_the_last_whole_pixel_stay() {
    let src = ImageSource::from_rgba("odd", 1, 1, vec![1, 2, 3, 4, 5, 6, 7]);
    assert_eq!(src.frame().unwrap().data, vec![3, 2, 1, 4, 5, 6, 7]);
}

fn png_bytes(width: u32, height: u32, rgba: Vec<u8>) -> Vec<u8> {
    let img = image::RgbaImage::from_raw(width, height, rgba).expect("whole image");
    let mut out = std::io::Cursor::new(Vec::new());
    img.write_to(&mut out, image::ImageFormat::Png).expect("png encoding");
    out.into_inner()
}

#[test]
fn image_from_file_decodes_and_swaps_red_and_blue() {
    let bytes = png_bytes(2, 1, vec![10, 20, 30, 255, 40, 50, 60, 128]);
    let src = ImageSource::from_file("pics/logo.png", &bytes).ok().expect("decodes");
    let f = src.frame().expect("image frame");
    assert_eq!((f.width, f.height), (2, 1));
    assert_eq!(f.data, vec![30, 20, 10, 255, 60, 50, 40, 128]);
    assert_eq!(src.metadata().name, "image:pics/logo.png");
    assert_eq!((src.metadata().native_width, src.metadata().native_height), (2, 1));
}

#[test]
fn image_from_file_refuses_undecodable_bytes() {
    let e = ImageSource::from_file("broken.png", &[1, 2, 3]).err().expect("refused");
    assert_eq!(e, "failed to open image: broken.png");
}

#[test]
fn image_from_file_refuses_unknown_extension() {
    let bytes = png_bytes(1, 1, vec![1, 2, 3, 4]);
    let e = ImageSource::from_file("picture.unknownext", &bytes).err().expect("refused");
    assert_eq!(e, "failed to open image: picture.unknownext");
    let e = ImageSource::from_file("no_extension", &bytes).err().expect("refused");
    assert_eq!(e, "failed to open image: no_extension");
}

#[test]
fn black_image_source() {
    let src = ImageSource::black(4, 2);
    let f = src.frame().unwrap();
    assert_eq!(f.data, vec![0; 32]);
    assert_eq!(src.metadata().name, "image:black");
    assert_eq!(src.metadata().source_type, SourceType::Image);
    assert!(src.is_running());
}

#[test]
fn source_type_labels() {
    assert_eq!(SourceType::Desktop.label(), "Desktop");
    assert_eq!(SourceType::Image.label(), "Image");
    assert_eq!(SourceType::Window.label(), "Window");
    assert_eq!(SourceType::Media.label(), "Media");
}

#[test]
fn desktop_duplication_arguments() {
    let s = DesktopSettings {
        output_idx: 2,
        width: 1920,
        height: 1080,
        fps: 30,
        use_ddagrab: true,
        offset_x: 0,
        offset_y: 0,
    };
    assert_eq!(
        s.build_ffmpeg_args(),
        vec![
            "-f", "lavfi", "-i", "ddagrab=output_idx=2:framerate=30:draw_mouse=0", "-vf",
            "hwdownload,format=bgra", "-f", "rawvideo", "-pix_fmt", "bgra", "pipe:1",
        ]
    );
}

#[test]
fn desktop_gdi_arguments_with_negative_offset() {
    let s = DesktopSettings {
        output_idx: 0,
        width: 1280,
        height: 720,
        fps: 25,
        use_ddagrab: false,
        offset_x: -1280,
        offset_y: 40,
    };
    assert_eq!(
        s.build_ffmpeg_args(),
        vec![
            "-f", "gdigrab", "-framerate", "25", "-offset_x", "-1280", "-offset_y", "40",
            "-video_size", "1280x720", "-i", "desktop", "-vf", "format=bgra", "-f", "rawvideo",
            "-pix_fmt", "bgra", "pipe:1",
        ]
    );
}

#[test]
fn desktop_metadata_names_the_display() {
    let m = desktop_metadata("\\\\.\\DISPLAY2".to_string(), 800, 600);
    assert_eq!(m.name, "\\\\.\\DISPLAY2");
    assert_eq!(m.source_type, SourceType::Desktop);
    assert_eq!((m.native_width, m.native_height), (800, 600));
}

#[test]
fn window_capture_arguments_and_name() {
    assert_eq!(
        window_capture_args("Notepad", 15),
        vec![
            "-y", "-f", "gdigrab", "-framerate", "15", "-i", "title=Notepad", "-vf",
            "scale=trunc(iw/2)*2:trunc(ih/2)*2,format=bgra", "-f", "rawvideo", "-pix_fmt", "bgra",
            "pipe:1",
        ]
    );
    let m = window_metadata("Notepad", 640, 480);
    assert_eq!(m.name, "window:Notepad");
    assert_eq!(m.source_type, SourceType::Window);
}

#[test]
fn exact_read_fills_over_several_reads() {
    let mut r = ExactRead::new(10);
    assert!(r.needs_more());
    assert!(r.on_read(ReadEvent::Data(4)) == ReadStep::Continue);
    assert_eq!(r.filled(), 4);
    assert!(r.on_read(ReadEvent::Interrupted) == ReadStep::Continue);
    assert_eq!(r.filled(), 4);
    assert!(r.on_read(ReadEvent::Data(6)) == ReadStep::Filled);
    assert_eq!(r.filled(), 10);
    assert!(!r.needs_more());
}

#[test]
fn exact_read_reports_end_of_stream_and_failure() {
    let mut r = ExactRead::new(8);
    assert!(r.on_read(ReadEvent::Data(3)) == ReadStep::Continue);
    assert!(r.on_read(ReadEvent::Data(0)) == ReadStep::EndOfStream);
    assert_eq!(r.filled(), 3);
    let mut r = ExactRead::new(8);
    assert!(r.on_read(ReadEvent::Failed) == ReadStep::Failed);
    assert_eq!(r.filled(), 0);
}

#[test]
fn exact_read_of_empty_buffer_needs_nothing() {
    assert!(!ExactRead::new(0).needs_more());
}
