use monitor::frame::Frame;
use monitor::scene::{Layer, Scene};
use monitor::source::{SourceMetadata, SourceType, StreamSource};

/// A source that counts how often it was stopped.
struct Probe {
    meta: SourceMetadata,
    stops: u32,
}

fn probe(name: &str) -> Probe {
    Probe {
        meta: SourceMetadata {
            name: name.to_string(),
            source_type: SourceType::Image,
            native_width: 1,
            native_height: 1,
        },
        stops: 0,
    }
}

impl StreamSource for Probe {
    fn start(&mut self) -> Result<(), String> {
        Ok(())
    }

    fn stopped(&self) -> bool {
        self.stops > 0
    }

    fn stop(&mut self) -> Result<(), String> {
        self.stops += 1;
        Err("already stopped".to_string())
    }

    fn frame(&self) -> Option<Frame> {
        None
    }

    fn metadata(&self) -> &SourceMetadata {
        &self.meta
    }

    fn is_running(&self) -> bool {
        self.stops == 0
    }
}

fn zs(s: &Scene<&'static str>) -> Vec<(u64, i32)> {
    s.iter().iter().map(|l| (l.id, l.z_index)).collect()
}

#[test]
fn ids_start_at_one_and_increase() {
    let mut s: Scene<&str> = Scene::new();
    assert!(s.is_empty());
    assert_eq!(s.add("a", 0, 0, 0), 1);
    assert_eq!(s.add("b", 0, 0, 0), 2);
    assert_eq!(s.add("c", 0, 0, 0), 3);
    assert_eq!(s.len(), 3);
    assert!(!s.is_empty());
}

#[test]
fn added_layer_is_visible_at_its_position() {
    let mut s: Scene<&str> = Scene::new();
    let id = s.add("a", 4, 10, -20);
    let l = &s.iter()[0];
    assert_eq!((l.id, l.z_index, l.x, l.y, l.visible, l.source), (id, 4, 10, -20, true, "a"));
}

#[test]
fn layers_are_kept_in_ascending_z_order() {
    let mut s: Scene<&str> = Scene::new();
    s.add("top", 10, 0, 0);
    s.add("bottom", -5, 0, 0);
    s.add("middle", 3, 0, 0);
    assert_eq!(zs(&s), vec![(2, -5), (3, 3), (1, 10)]);
}

#[test]
fn equal_z_layers_keep_arrival_order() {
    let mut s: Scene<&str> = Scene::new();
    s.add("a", 1, 0, 0);
    s.add("b", 0, 0, 0);
    s.add("c", 1, 0, 0);
    s.add("d", 1, 0, 0);
    let names: Vec<&str> = s.iter().iter().map(|l| l.source).collect();
    assert_eq!(names, vec!["b", "a", "c", "d"]);
}

#[test]
fn remove_returns_the_layer() {
    let mut s: Scene<&str> = Scene::new();
    s.add("a", 0, 0, 0);
    let id = s.add("b", 1, 5, 6);
    let removed = s.remove(id).expect("layer exists");
    assert_eq!((removed.id, removed.source, removed.x, removed.y), (id, "b", 5, 6));
    assert_eq!(s.len(), 1);
    assert!(s.remove(id).is_none());
}

#[test]
fn remove_of_unknown_id_changes_nothing() {
    let mut s: Scene<&str> = Scene::new();
    s.add("a", 0, 0, 0);
    assert!(s.remove(42).is_none());
    assert_eq!(zs(&s), vec![(1, 0)]);
}

#[test]
fn remove_right_after_add_restores_the_scene() {
    let mut s: Scene<&str> = Scene::new();
    s.add("a", 0, 0, 0);
    s.add("b", 2, 0, 0);
    s.add("c", 2, 0, 0);
    let before = zs(&s);
    let id = s.add("new", 2, 1, 1);
    let l = s.remove(id).unwrap();
    assert_eq!((l.id, l.z_index, l.source), (id, 2, "new"));
    assert_eq!(zs(&s), before);
}

#[test]
fn ids_are_not_reused_after_remove_or_clear() {
    let mut s: Scene<Probe> = Scene::new();
    let a = s.add(probe("a"), 0, 0, 0);
    s.remove(a);
    assert_eq!(s.add(probe("b"), 0, 0, 0), 2);
    let all = s.clear();
    assert_eq!(all.len(), 1);
    assert!(s.is_empty());
    assert_eq!(s.add(probe("c"), 0, 0, 0), 3);
}

#[test]
fn reorder_moves_layer_and_resorts() {
    let mut s: Scene<&str> = Scene::new();
    s.add("a", 0, 0, 0);
    s.add("b", 1, 0, 0);
    s.add("c", 2, 0, 0);
    assert!(s.reorder(1, 5));
    assert_eq!(zs(&s), vec![(2, 1), (3, 2), (1, 5)]);
    assert!(s.reorder(1, -1));
    assert_eq!(zs(&s), vec![(1, -1), (2, 1), (3, 2)]);
}

#[test]
fn reorder_into_equal_z_group_follows_stable_sort() {
    let mut s: Scene<&str> = Scene::new();
    s.add("a", 1, 0, 0); // id 1
    s.add("b", 1, 0, 0); // id 2
    s.add("c", 3, 0, 0); // id 3
    s.add("d", 5, 0, 0); // id 4
    // Moving down into the group of z 1: it stood after that group, so it goes last in it.
    assert!(s.reorder(4, 1));
    assert_eq!(zs(&s), vec![(1, 1), (2, 1), (4, 1), (3, 3)]);
    // Moving up into the group of z 3 from before it: it goes first in that group.
    assert!(s.reorder(1, 3));
    assert_eq!(zs(&s), vec![(2, 1), (4, 1), (1, 3), (3, 3)]);
}

#[test]
fn reorder_to_the_same_z_changes_nothing() {
    let mut s: Scene<&str> = Scene::new();
    s.add("a", 2, 0, 0);
    s.add("b", 2, 0, 0);
    s.add("c", 2, 0, 0);
    let before = zs(&s);
    assert!(s.reorder(2, 2));
    assert_eq!(zs(&s), before);
}

#[test]
fn reorder_of_unknown_id_returns_false() {
    let mut s: Scene<&str> = Scene::new();
    s.add("a", 0, 0, 0);
    assert!(!s.reorder(9, 3));
    assert_eq!(zs(&s), vec![(1, 0)]);
}

#[test]
fn set_position_and_visibility() {
    let mut s: Scene<&str> = Scene::new();
    let id = s.add("a", 0, 0, 0);
    assert!(s.set_position(id, 100, -50));
    assert!(s.set_visible(id, false));
    let l = &s.iter()[0];
    assert_eq!((l.x, l.y, l.visible), (100, -50, false));
    assert!(!s.set_position(id + 1, 1, 1));
    assert!(!s.set_visible(id + 1, true));
}

#[test]
fn get_mut_gives_access_to_a_layer() {
    let mut s: Scene<&str> = Scene::new();
    let id = s.add("a", 0, 0, 0);
    {
        let l: &mut Layer<&str> = s.get_mut(id).unwrap();
        l.source = "changed";
    }
    assert_eq!(s.iter()[0].source, "changed");
    assert!(s.get_mut(id + 1).is_none());
}

#[test]
fn clear_returns_layers_in_z_order() {
    let mut s: Scene<Probe> = Scene::new();
    s.add(probe("x"), 3, 0, 0);
    s.add(probe("y"), 1, 0, 0);
    let all: Vec<String> = s.clear().into_iter().map(|l| l.source.meta.name).collect();
    assert_eq!(all, vec!["y".to_string(), "x".to_string()]);
    assert_eq!(s.len(), 0);
}

#[test]
fn clear_stops_each_source_once_and_keeps_placement() {
    let mut s: Scene<Probe> = Scene::new();
    s.add(probe("x"), 3, 7, 8);
    let hidden = s.add(probe("y"), 1, -2, 4);
    s.set_visible(hidden, false);
    let all = s.clear();
    assert_eq!(all.len(), 2);
    assert!(all.iter().all(|l| l.source.stops == 1 && l.source.stopped() && !l.source.is_running()));
    let placed: Vec<(u64, i32, i32, i32, bool)> =
        all.iter().map(|l| (l.id, l.z_index, l.x, l.y, l.visible)).collect();
    assert_eq!(placed, vec![(2, 1, -2, 4, false), (1, 3, 7, 8, true)]);
}

#[test]
fn edits_keep_the_same_layers() {
    let mut s: Scene<&str> = Scene::new();
    for (i, z) in [3, 1, 2, 1].iter().enumerate() {
        s.add(["a", "b", "c", "d"][i], *z, 0, 0);
    }
    let ids = |s: &Scene<&str>| {
        let mut v: Vec<u64> = s.iter().iter().map(|l| l.id).collect();
        v.sort();
        v
    };
    let before = ids(&s);
    s.reorder(2, 9);
    s.set_position(3, 4, 4);
    s.set_visible(4, false);
    assert_eq!(ids(&s), before);
}
