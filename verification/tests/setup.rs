use dub_server::setup::archive::{leaf_of, tree_parts, unpack_plan, Entry};
use dub_server::setup::catalog::manifest;
use dub_server::setup::download::{
    after_attempt, check_part, done_manifest_path, ending, part_path, plan_files, plan_ranges, plan_tasks,
    pool_size,
    rolled_back, say_fault, select_components, size_from_reply, Attempt, Ending, FileState, PartFault,
    RangeStep, Task, CHUNK,
    POOL_SLOTS, RANGE_RETRIES,
};
use dub_server::setup::import::{import_plan, imported_ids, Found};
use dub_server::setup::status::{
    detect_driver, marker_ok, setup_status, sizes_fit, CloudStages, Disk, DiskEntry, Machine,
};
use dub_server::setup::{Delivery, Extract, FileSpec, Marker};

#[test]
fn manifest_ids_unique_and_nonempty() {
    let m = manifest();
    assert!(!m.is_empty());
    let mut ids: Vec<&str> = m.iter().map(|c| c.id).collect();
    ids.sort_unstable();
    let n = ids.len();
    ids.dedup();
    assert_eq!(ids.len(), n);
}

#[test]
fn download_components_have_files_and_markers() {
    for c in manifest() {
        match c.delivery {
            Delivery::Download => {
                assert!(!c.files.is_empty(), "{}: downloaded without files", c.id);
                assert!(!c.markers.is_empty(), "{}: downloaded without markers", c.id);
                for f in c.files {
                    assert!(f.url.starts_with("https://"), "{}: not an https URL", c.id);
                }
            }
            Delivery::Bundled => {
                assert!(c.files.is_empty(), "{}: bundled with files", c.id);
                assert!(!c.markers.is_empty(), "{}: bundled without markers", c.id);
            }
            Delivery::External => {
                assert!(c.external_url.is_some(), "{}: external without url", c.id);
            }
        }
    }
}

#[test]
fn nothing_is_installed_on_an_empty_disk() {
    let disk = Disk { entries: vec![] };
    assert!(sizes_fit(&disk));
    let machine = Machine { driver: false, ffmpeg_on_path: false };
    let cloud = CloudStages { llm: false, tts: false, asr: false };
    let s = setup_status(&disk, &machine, &cloud, "gpu");
    assert!(!s.ready);
    assert!(!s.driver_ok);
    assert_eq!(s.download_pending, 15_154_375_394);
    assert_eq!(s.components.len(), manifest().len());
    assert!(s.components.iter().filter(|c| c.delivery == Delivery::Download).all(|c| !c.installed));
}

#[test]
fn optional_components_are_not_pending() {
    let machine = Machine { driver: false, ffmpeg_on_path: false };
    let cloud = CloudStages { llm: false, tts: false, asr: false };
    let pending = |disk: Disk| setup_status(&disk, &machine, &cloud, "gpu").download_pending;
    let there = |id: &str| {
        let all = manifest();
        let c = all.iter().find(|c| c.id == id).unwrap();
        let entries = c
            .files
            .iter()
            .map(|f| (f.dest_rel.to_string(), DiskEntry { is_file: true, len: f.size }))
            .collect();
        (Disk { entries }, c.size)
    };
    let (optional, _) = there("whisper-small");
    assert_eq!(pending(optional), 15_154_375_394);
    let (needed, size) = there("gemma");
    assert_eq!(pending(needed), 15_154_375_394 - size);
}

#[test]
fn sizes_are_those_of_the_files() {
    let all = manifest();
    let size = |id: &str| all.iter().find(|c| c.id == id).unwrap().size;
    assert_eq!(size("higgs"), 5_530_678_590);
    assert_eq!(size("parakeet"), 670_619_803);
    for c in all.iter().filter(|c| c.delivery == Delivery::Download && c.files.iter().all(|f| f.size != 0)) {
        assert_eq!(c.size, c.files.iter().map(|f| f.size).sum::<u64>(), "{}", c.id);
    }
}

#[test]
fn driver_is_found_by_its_library() {
    assert!(!detect_driver(&vec![]));
    assert!(detect_driver(&vec!["/usr/lib/libcuda.so.1".to_string()]));
}

#[test]
fn marked_files_have_their_size() {
    let disk = Disk { entries: vec![("a.bin".to_string(), DiskEntry { is_file: true, len: 100 })] };
    assert!(marker_ok(&disk, &Marker { rel: "a.bin", expect: 100 }));
    assert!(!marker_ok(&disk, &Marker { rel: "a.bin", expect: 1000 }));
    assert!(!marker_ok(&disk, &Marker { rel: "b.bin", expect: 0 }));
    assert!(disk.entry("a.bin").is_some());
}

#[test]
fn known_components_are_selected() {
    assert!(select_components(&vec!["nothing".to_string()]).is_none());
    let id = manifest()[0].id.to_string();
    let cs = select_components(&vec![id.clone()]).unwrap();
    assert_eq!(cs.len(), 1);
    assert_eq!(cs[0].id, id);
}

#[test]
fn what_is_there_is_not_loaded_again() {
    let c = manifest().into_iter().find(|c| c.delivery == Delivery::Download).unwrap();
    let cs = select_components(&vec![c.id.to_string()]).unwrap();
    let n = plan_files(&Disk { entries: vec![] }, &cs).len();
    assert!(n > 0 && n <= c.files.len());
    let entries = c
        .markers
        .iter()
        .map(|m| (m.rel.to_string(), DiskEntry { is_file: true, len: m.expect.max(1) }))
        .chain(c.files.iter().map(|f| (f.dest_rel.to_string(), DiskEntry { is_file: true, len: f.size.max(1) })))
        .collect();
    assert!(plan_files(&Disk { entries }, &cs).is_empty());
}

#[test]
fn ranges_cover_what_is_missing() {
    assert_eq!(plan_ranges(10, &vec![]), (vec![(0, 9)], 0));
    let total = CHUNK * 2 + 5;
    let (ranges, done) = plan_ranges(total, &vec![CHUNK]);
    assert_eq!(ranges, vec![(0, CHUNK - 1), (CHUNK * 2, total - 1)]);
    assert_eq!(done, CHUNK);
    assert_eq!(size_from_reply(206, Some("bytes 0-0/1234"), None), (1234, true));
    assert_eq!(size_from_reply(200, None, Some("77")), (77, false));
    assert_eq!(pool_size(100), POOL_SLOTS);
}

#[test]
fn broken_ranges_are_tried_again() {
    assert!(matches!(after_attempt(0, 9, 0, Attempt::Closed { got: 10 }), RangeStep::Done));
    assert!(matches!(after_attempt(0, 9, 0, Attempt::Closed { got: 4 }), RangeStep::Retry { got: 4, .. }));
    assert!(matches!(after_attempt(0, 9, 0, Attempt::Cancelled), RangeStep::Cancelled));
    let broken = || Attempt::Failed { got: 4, reason: "reset".to_string() };
    assert!(matches!(after_attempt(0, 9, 0, broken()), RangeStep::Retry { got: 4, .. }));
    assert!(matches!(after_attempt(0, 9, RANGE_RETRIES - 1, broken()), RangeStep::GiveUp { got: 4, .. }));
    assert!(matches!(ending(None, true), Ending::Cancelled));
    assert!(matches!(ending(None, false), Ending::Finish));
    assert!(matches!(ending(Some("x".to_string()), false), Ending::Failed(_)));
    assert_eq!(rolled_back(10, 4), 6);
    assert_eq!(rolled_back(3, 4), 0);
}

#[test]
fn loaded_parts_are_looked_at() {
    let gguf = vec![0x47u8, 0x47, 0x55, 0x46];
    assert!(check_part("m.gguf", 10, 10, &gguf).is_none());
    assert!(matches!(check_part("m.gguf", 10, 10, &vec![0, 1, 2, 3]), Some(PartFault::Magic)));
    assert!(matches!(check_part("m.gguf", 9, 10, &gguf), Some(PartFault::Size)));
    assert!(check_part("m.onnx", 10, 10, &vec![]).is_none());
    assert!(say_fault(PartFault::Size, "m", 9, 10, &gguf).contains("m"));
    assert_ne!(part_path("m"), done_manifest_path("m"));
}

#[test]
fn archives_stay_in_their_directory() {
    assert_eq!(tree_parts("a/../b/./c"), vec!["a".to_string(), "b".to_string(), "c".to_string()]);
    assert_eq!(leaf_of("x/y/z.dll"), "z.dll");
    let entries = vec![
        Entry { name: "dir/".to_string(), is_dir: true },
        Entry { name: "dir/a.txt".to_string(), is_dir: false },
    ];
    let plan = unpack_plan(Extract::ZipTree, &entries).unwrap();
    assert_eq!(plan.len(), 1);
    assert_eq!(plan[0].index, 1);
}

#[test]
fn found_files_are_copied_over() {
    let c = manifest().into_iter().find(|c| c.delivery == Delivery::Download && c.markers[0].expect > 0).unwrap();
    let m = &c.markers[0];
    let name = m.rel.rsplit('/').next().unwrap().to_string();
    let found = vec![Found { name, size: m.expect }];
    let plan = import_plan(&Disk { entries: vec![] }, &found, Some(c.id));
    assert!(plan.iter().all(|p| p.source == 0));
    assert!(import_plan(&Disk { entries: vec![] }, &vec![], None).is_empty());
}

#[test]
fn files_are_loaded_in_ranges_where_they_can() {
    let c = manifest().into_iter().find(|c| c.delivery == Delivery::Download && c.files.len() > 1).unwrap();
    let cs = select_components(&vec![c.id.to_string()]).unwrap();
    let ps = plan_files(&Disk { entries: vec![] }, &cs);
    let states: Vec<FileState> = (0..ps.len())
        .map(|i| FileState { total: 100, ranges_ok: i > 0, part_len: None, record: None })
        .collect();
    let plan = plan_tasks(&ps, &states, cs.len());
    assert_eq!(plan.tasks.len(), ps.len());
    assert!(matches!(plan.tasks[0], Task::Whole { file: 0 }));
    assert!(matches!(plan.tasks[1], Task::Range { file: 1, start: 0, end: 99 }));
    assert_eq!(plan.totals, vec![100 * ps.len() as u64]);
    assert_eq!(plan.done, vec![0]);
}

#[test]
fn component_is_taken_over_once_it_is_whole() {
    let all = manifest();
    let at = all.iter().position(|c| c.id == "roformer").unwrap();
    let m = &all[at].markers[0];
    let leaf = m.rel.rsplit('/').next().unwrap().to_uppercase();
    let found = vec![
        Found { name: leaf.clone(), size: m.expect + 1 },
        Found { name: "other".to_string(), size: m.expect },
        Found { name: leaf, size: m.expect },
    ];
    let none = Disk { entries: vec![] };
    let plan = import_plan(&none, &found, Some("roformer"));
    let planned: Vec<(usize, &str, usize)> = plan.iter().map(|c| (c.component, c.rel, c.source)).collect();
    assert_eq!(planned, vec![(at, m.rel, 2)]);
    let other_sizes = found[..2].to_vec();
    assert!(import_plan(&none, &other_sizes, Some("roformer")).is_empty());
    let machine = Machine { driver: false, ffmpeg_on_path: false };
    let whole = Disk { entries: vec![(m.rel.to_string(), DiskEntry { is_file: true, len: m.expect })] };
    assert_eq!(imported_ids(&plan, &vec![true], &whole, &machine), vec!["roformer"]);
    assert!(imported_ids(&plan, &vec![false], &whole, &machine).is_empty());
    assert!(imported_ids(&plan, &vec![true], &none, &machine).is_empty());
}

#[test]
fn markers_are_files_below_the_root() {
    for c in manifest() {
        for p in c.files.iter().map(|f| f.dest_rel).chain(c.markers.iter().map(|m| m.rel)) {
            assert!(!p.is_empty() && !p.starts_with('/') && !p.contains(['\\', ':']) && !p.contains(".."), "{p}");
        }
        for m in c.markers.iter().filter(|m| c.delivery == Delivery::Download && m.expect != 0) {
            let same = |f: &&FileSpec| f.dest_rel == m.rel && f.size == m.expect && f.extract == Extract::Keep;
            assert_eq!(c.files.iter().filter(same).count(), 1, "{}", m.rel);
        }
    }
}
