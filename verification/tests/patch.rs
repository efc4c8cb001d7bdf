use dub_server::json;
use dub_server::patch::apply;
use dub_server::project::{Project, Segment};

fn proj_with_seg() -> Project {
    let mut p = Project::default();
    p.segments.push(Segment {
        id: "s0".into(),
        start: 0,
        end: 1_000_000,
        src_text: "hi".into(),
        ..Default::default()
    });
    p
}

#[test]
fn segment_edits_text_and_marks_dirty() {
    let mut p = proj_with_seg();
    let e = json::read("{\"op\":\"segment\",\"id\":\"s0\",\"tgt_text\":\"привет\"}").unwrap();
    apply(&mut p, &e).unwrap();
    assert_eq!(p.segments[0].tgt_text, "привет");
    assert!(p.segments[0].dirty);
}

#[test]
fn segment_unknown_id_404() {
    let mut p = proj_with_seg();
    let e = json::read("{\"op\":\"segment\",\"id\":\"sX\",\"tgt_text\":\"x\"}").unwrap();
    let e = apply(&mut p, &e).unwrap_err();
    assert_eq!(e.0, 404);
    assert!(!p.segments[0].dirty);
}

#[test]
fn subpos_sets_locked() {
    let mut p = proj_with_seg();
    apply(&mut p, &json::read("{\"op\":\"subpos\",\"sub_y\":720}").unwrap()).unwrap();
    assert_eq!(p.captions.sub_y, Some(720));
    assert!(p.captions.sub_y_locked);
}

#[test]
fn mode_dub_and_unknown() {
    let mut p = proj_with_seg();
    apply(&mut p, &json::read("{\"op\":\"mode\",\"value\":\"dub\"}").unwrap()).unwrap();
    assert_eq!(p.mode, "dub");
    assert!(p.segments[0].dirty);
    let e = apply(&mut p, &json::read("{\"op\":\"mode\",\"value\":\"nope\"}").unwrap()).unwrap_err();
    assert_eq!(e.0, 400);
    assert_eq!(p.mode, "dub");
}

#[test]
fn edit_without_a_known_kind_is_refused() {
    let mut p = proj_with_seg();
    assert_eq!(apply(&mut p, &json::read("{\"op\":\"fly\"}").unwrap()).unwrap_err().0, 400);
    assert_eq!(apply(&mut p, &json::read("{}").unwrap()).unwrap_err().0, 400);
    assert_eq!(apply(&mut p, &json::read("{\"op\":\"subpos\"}").unwrap()).unwrap_err().0, 400);
}

#[test]
fn refusals_quote_what_they_refuse() {
    let mut p = proj_with_seg();
    let e = apply(&mut p, &json::read("{\"op\":\"fly\"}").unwrap()).unwrap_err();
    assert_eq!(e, (400, "unknown op \"fly\"".to_string()));
    let e = apply(&mut p, &json::read("{\"op\":\"segment\",\"id\":\"s\\\"X\",\"tgt_text\":\"x\"}").unwrap()).unwrap_err();
    assert_eq!(e, (404, "segment \"s\\\"X\" not found".to_string()));
    let e = apply(&mut p, &json::read("{\"op\":\"mode\",\"value\":\"nope\"}").unwrap()).unwrap_err();
    assert_eq!(e, (400, "unknown mode \"nope\"".to_string()));
}
