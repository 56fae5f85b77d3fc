use monitor::display::{output_map, DisplayAdapter, DisplayMode, MonitorInfo, MonitorRegistry, OutputMap};
use monitor::text::wchar_to_string;

fn wide(s: &str) -> Vec<u16> {
    let mut v: Vec<u16> = s.encode_utf16().collect();
    v.push(0);
    v.extend([0x41u16, 0x42u16]); // garbage after the terminator
    v
}

fn adapter(name: &str, id: &str, attached: bool, mode: Option<(i32, i32, u32, u32)>) -> DisplayAdapter {
    DisplayAdapter {
        device_name: wide(name),
        device_id: wide(id),
        attached,
        mode: mode.map(|(x, y, width, height)| DisplayMode { x, y, width, height }),
    }
}

#[test]
fn wchar_to_string_stops_at_nul() {
    assert_eq!(wchar_to_string(&[0x44, 0x49, 0x53, 0x50, 0, 0x58]), "DISP");
    assert_eq!(wchar_to_string(&[0x61, 0x62]), "ab");
    assert_eq!(wchar_to_string(&[0, 0x61]), "");
    assert_eq!(wchar_to_string(&[]), "");
    // Non-ASCII and an unpaired surrogate.
    assert_eq!(wchar_to_string(&[0x00e9, 0xd800, 0]), "\u{e9}\u{fffd}");
    // A surrogate pair forms one character; a lone low surrogate is replaced.
    assert_eq!(wchar_to_string(&[0xd83d, 0xde00, 0xdc00, 0x41]), "\u{1f600}\u{fffd}A");
}

#[test]
fn output_map_numbers_outputs_globally() {
    let outputs = vec![Some(wide("\\\\.\\DISPLAY1")), None, Some(wide("\\\\.\\DISPLAY3"))];
    let m = output_map(&outputs);
    assert_eq!(m.len(), 2);
    assert_eq!(m.get(&"\\\\.\\DISPLAY1".to_string()), Some(0));
    assert_eq!(m.get(&"\\\\.\\DISPLAY3".to_string()), Some(2));
    assert_eq!(m.get(&"\\\\.\\DISPLAY2".to_string()), None);
}

#[test]
fn output_map_later_duplicate_wins() {
    let outputs = vec![Some(wide("A")), Some(wide("B")), Some(wide("A"))];
    let m = output_map(&outputs);
    assert_eq!(m.len(), 2);
    assert_eq!(m.get(&"A".to_string()), Some(2));
    assert_eq!(m.get(&"B".to_string()), Some(1));
}

#[test]
fn output_map_insert_replaces() {
    let mut m = OutputMap::new();
    m.insert("X".to_string(), 4);
    m.insert("X".to_string(), 7);
    assert_eq!(m.len(), 1);
    assert_eq!(m.get(&"X".to_string()), Some(7));
}

#[test]
fn refresh_builds_records_from_attached_adapters() {
    let adapters = vec![
        adapter("\\\\.\\DISPLAY1", "PCI\\VEN_10DE", true, Some((0, 0, 1920, 1080))),
        adapter("\\\\.\\DISPLAY9", "PCI\\VEN_10DE", false, Some((0, 0, 1, 1))),
        adapter("\\\\.\\DISPLAY2", "PCI\\VEN_8086", true, None),
        adapter("\\\\.\\DISPLAY3", "ROOT\\MttVDD&0", true, Some((1920, -10, 1280, 720))),
    ];
    let mut reg = MonitorRegistry::new();
    let found = reg.refresh(&adapters, &OutputMap::new());
    assert_eq!(found.len(), 2);
    let d1 = &found[0];
    assert_eq!((d1.key.as_str(), d1.index, d1.x, d1.y, d1.w, d1.h, d1.is_virtual), ("\\\\.\\DISPLAY1", 0, 0, 0, 1920, 1080, false));
    let d3 = &found[1];
    // The adapter without readable settings still counts among the attached ones.
    assert_eq!((d3.key.as_str(), d3.index, d3.x, d3.y, d3.w, d3.h, d3.is_virtual), ("\\\\.\\DISPLAY3", 2, 1920, -10, 1280, 720, true));
    assert_eq!(reg.get_all().len(), 2);
}

#[test]
fn refresh_prefers_the_output_index() {
    let adapters = vec![
        adapter("A", "x", true, Some((0, 0, 10, 10))),
        adapter("B", "x", true, Some((10, 0, 10, 10))),
    ];
    let mut outputs = OutputMap::new();
    outputs.insert("B".to_string(), 0);
    outputs.insert("A".to_string(), 1);
    let mut reg = MonitorRegistry::new();
    let found = reg.refresh(&adapters, &outputs);
    assert_eq!(found[0].index, 1);
    assert_eq!(found[1].index, 0);
}

#[test]
fn refresh_replaces_everything_and_keeps_one_record_per_name() {
    let mut reg = MonitorRegistry::new();
    reg.refresh(&vec![adapter("A", "x", true, Some((0, 0, 10, 10)))], &OutputMap::new());
    let found = reg.refresh(
        &vec![adapter("B", "x", true, Some((0, 0, 1, 1))), adapter("B", "y", true, Some((5, 5, 2, 2)))],
        &OutputMap::new(),
    );
    assert_eq!(found.len(), 1);
    assert_eq!((found[0].x, found[0].index), (5, 1));
    let all = reg.get_all();
    assert_eq!(all.len(), 1);
    assert_eq!(all[0].key, "B");
    assert!(reg.get(&"A".to_string()).is_none());
    assert_eq!(reg.get(&"B".to_string()).unwrap().w, 2);
}

#[test]
fn get_virtual_finds_the_first_virtual_display() {
    let mut reg = MonitorRegistry::new();
    assert!(reg.get_virtual().is_none());
    reg.refresh(
        &vec![
            adapter("A", "pci", true, Some((0, 0, 1, 1))),
            adapter("V1", "root\\mttvdd", true, Some((0, 0, 2, 2))),
            adapter("V2", "ROOT\\MTTVDD", true, Some((0, 0, 3, 3))),
        ],
        &OutputMap::new(),
    );
    assert_eq!(reg.get_virtual().unwrap().key, "V1");
    reg.refresh(&vec![adapter("A", "pci", true, Some((0, 0, 1, 1)))], &OutputMap::new());
    assert!(reg.get_virtual().is_none());
}

#[test]
fn monitor_description() {
    let m = MonitorInfo { key: "\\\\.\\DISPLAY1".to_string(), index: 3, x: -1920, y: 0, w: 1920, h: 1080, is_virtual: false };
    assert_eq!(m.describe(), "\\\\.\\DISPLAY1 (physical)  pos=(-1920,0)  size=1920x1080  idx=3");
    let v = MonitorInfo { key: "V".to_string(), index: 0, x: 0, y: 5, w: 1, h: 2, is_virtual: true };
    assert_eq!(v.describe(), "V (virtual)  pos=(0,5)  size=1x2  idx=0");
}
