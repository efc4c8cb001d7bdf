use dub_server::captions::{boxes_fit, collect_blur_boxes, draws, subtitles};
use dub_server::compose::blur::{draft, finish, title_source, Composed, Seen};
use dub_server::compose::reading::{read_list, regions_fit, ComposeCtx, Region};
use dub_server::compose::style::{usual_value, SubStyle};
use dub_server::json;
use dub_server::project::{times_fit, BlurBox, Project, Segment};

fn reg(text: &str, x: i64, y: i64, w: i64, h: i64, t0: f64, t1: f64) -> Region {
    Region { text: text.into(), x, y, w, h, t0: (t0 * 1e6) as i64, t1: (t1 * 1e6) as i64 }
}

fn plain() -> SubStyle {
    SubStyle {
        color: "#FFFFFF".to_string(),
        outline: "#000000".to_string(),
        bold: false,
        italic: false,
        align: "center".to_string(),
        font: None,
        scene_color: None,
        scene_flat: false,
        background: None,
        solid: None,
    }
}

fn ctx() -> ComposeCtx {
    ComposeCtx { vw: 720, vh: 1280, total: 30_000_000, do_translate: true, fresh_subs: false }
}

fn run(doc: &str, regions: Vec<Region>, known: Option<SubStyle>, light: Vec<bool>, sub_y: Option<i64>) -> Composed {
    let doc = json::read(doc).unwrap();
    let boxes = regions
        .iter()
        .map(|r| BlurBox {
            x: r.x,
            y: r.y,
            w: r.w,
            h: r.h,
            t0: r.t0,
            t1: r.t1,
            hidden: false,
            fill: None,
            band: false,
        })
        .collect();
    let seen = Seen {
        regions,
        boxes,
        groups: vec![],
        band_times: vec![],
        band_heights: vec![],
        band: vec![],
    };
    let d = draft(&doc, &seen, known, &light, &ctx());
    finish(d, &seen, sub_y, None, &plain(), &ctx())
}

#[test]
fn subtitle_areas_are_marked() {
    let doc = json::read("{}").unwrap();
    let seen = Seen {
        regions: vec![],
        boxes: vec![],
        groups: vec![],
        band_times: vec![],
        band_heights: vec![],
        band: vec![bb(10, 600, 300, 30, 1.0, 2.0, false)],
    };
    let d = draft(&doc, &seen, None, &vec![], &ctx());
    let r = finish(d, &seen, None, None, &plain(), &ctx());
    assert_eq!(r.blur_boxes.len(), 1);
    let b = &r.blur_boxes[0];
    assert_eq!((b.x, b.y, b.w, b.h, b.t0, b.t1), (10, 600, 300, 30, 1_000_000, 2_000_000));
    assert!(b.band);
    let mut proj = Project::default();
    proj.captions.blur_boxes = r.blur_boxes;
    proj.subs.mode = "none".to_string();
    assert_eq!(collect_blur_boxes(&proj), Vec::<usize>::new());
}

#[test]
fn ctitle_bbox_matches_localize_boxes() {
    let localize = vec![
        reg("КОРОЧЕ", 150, 80, 180, 44, 0.0, 1.4),
        reg("ПОДКЛЮЧЕН", 300, 84, 220, 42, 0.2, 1.5),
        reg("random", 600, 700, 90, 30, 5.0, 6.0),
    ];
    let doc = "{\"titles\":[{\"text\":\"КОРОЧЕ ПОДКЛЮЧЕН\",\"tgt\":\"IN SHORT CONNECTED\",\
               \"y_frac\":0.065625,\"color\":\"#FFFFFF\",\"bg\":null,\"solid\":false,\
               \"align\":\"center\",\"bold\":true,\"italic\":false,\"font\":null}]}";
    let r = run(doc, localize, None, vec![false], None);
    assert_eq!(r.titles.len(), 1);
    let t = &r.titles[0];
    assert_eq!((t.x, t.y, t.w, t.h), (150, 80, 370, 46));
    assert_eq!(t.text, "IN SHORT CONNECTED");
    assert_eq!(t.start, 0);
    assert_eq!(t.end, 1_500_000);
    assert_eq!(t.lh, 42);
    assert!(r.blur_boxes.iter().any(|b| b.x == 150 && b.y == 80 && b.w == 370 && b.h == 46));
}

#[test]
fn ctitle_fallback_center_band() {
    let doc = "{\"titles\":[{\"text\":\"SOME TITLE\",\"tgt\":\"НЕКИЙ ТИТР\",\"y_frac\":0.2,\"align\":\"center\"}]}";
    let r = run(doc, vec![], None, vec![false], None);
    assert_eq!(r.titles.len(), 1);
    let t = &r.titles[0];
    let (vw, vh) = (720i64, 1280i64);
    let yc = 0.2 * vh as f64;
    assert_eq!(t.x, (vw as f64 * 0.08) as i64);
    assert_eq!(t.w, (vw as f64 * 0.92) as i64 - (vw as f64 * 0.08) as i64);
    assert_eq!(t.y, (yc - vh as f64 * 0.045) as i64);
}

#[test]
fn white_card_activates_cover() {
    let doc = "{\"titles\":[{\"text\":\"T\",\"tgt\":\"Т\",\"y_frac\":0.1,\"solid\":true,\"bg\":\"#FFFFFF\"}]}";
    let r = run(doc, vec![], Some(plain()), vec![true], None);
    let ss = r.sub_style.unwrap();
    assert_eq!(ss.scene_color.as_deref(), Some("#FFFFFF"));
    assert!(ss.scene_flat);
    let dark = run(doc, vec![], Some(plain()), vec![false], None).sub_style.unwrap();
    assert_eq!(dark.scene_color, None);
}

#[test]
fn sub_px_median_on_band() {
    let localize = vec![
        reg("a", 200, 1040, 100, 40, 0.0, 1.0),
        reg("b", 200, 1044, 100, 44, 1.0, 2.0),
        reg("c", 200, 1046, 100, 48, 2.0, 3.0),
        reg("d", 200, 200, 100, 30, 0.0, 1.0),
    ];
    let r = run("{}", localize, None, vec![], Some(1050));
    assert_eq!(r.sub_px, Some(44));
}

#[test]
fn most_frequent_value_is_the_usual_one() {
    let list: Vec<String> = ["a", "b", "b"].iter().map(|s| s.to_string()).collect();
    assert_eq!(usual_value(&list, "z"), "b");
    assert_eq!(usual_value(&vec![], "z"), "z");
}

#[test]
fn described_titles_are_read() {
    let j = json::read("{\"titles\":[{\"text\":\"A\",\"y_frac\":0.25},{\"tgt\":\"B\"}]}").unwrap();
    let ts = read_list(&j, "titles");
    assert_eq!(ts.len(), 2);
    assert_eq!(ts[0].text, "A");
    assert_eq!(ts[0].y, 250_000);
    assert_eq!(ts[1].tgt, "B");
    assert!(read_list(&j, "captions").is_empty());
}

fn bb(x: i64, y: i64, w: i64, h: i64, t0: f64, t1: f64, band: bool) -> BlurBox {
    BlurBox {
        x,
        y,
        w,
        h,
        t0: (t0 * 1e6) as i64,
        t1: (t1 * 1e6) as i64,
        hidden: false,
        fill: None,
        band,
    }
}

fn seg(id: &str, start: f64, end: f64, tgt: &str) -> Segment {
    Segment {
        id: id.into(),
        start: (start * 1e6) as i64,
        end: (end * 1e6) as i64,
        tgt_text: tgt.into(),
        ..Default::default()
    }
}

fn dubbed(sub_y: i64) -> Project {
    let mut proj = Project::default();
    proj.mode = "dub".into();
    proj.subs.mode = "translate".into();
    proj.captions.sub_y = Some(sub_y);
    proj.captions.sub_y_locked = false;
    proj
}

#[test]
fn seg_y_rides_band_not_tagline_ducks() {
    let (vw, vh) = (464i64, 824i64);
    let mut proj = dubbed(634);
    let mut boxes = Vec::new();
    for t in [1.75, 2.0, 2.25, 2.5, 2.75].iter() {
        boxes.push(bb(161, 427, 140, 21, *t, *t + 0.25, false));
        boxes.push(bb(42, 453, 378, 22, *t, *t + 0.25, false));
    }
    for (cy, t) in [
        (630.0, 1.75),
        (630.0, 2.0),
        (641.0, 2.25),
        (641.0, 2.5),
        (641.0, 2.75),
        (641.0, 3.0),
        (652.0, 1.75),
        (652.0, 2.0),
        (686.0, 2.5),
    ] {
        let y = cy as i64 - 9;
        boxes.push(bb(120, y, 220, 19, t, t + 0.25, true));
    }
    proj.captions.blur_boxes = boxes;
    proj.segments = vec![seg("s0", 2.22, 2.80, "SUBSCRIPTION.")];
    let subs = subtitles(&proj, vw, vh, 30_000_000);
    let y = subs[0].y;
    assert!((630..=650).contains(&y), "y={y}");
}

#[test]
fn seg_y_fallback_untagged_boxes() {
    let (vw, vh) = (464i64, 824i64);
    let mut proj = dubbed(634);
    let mut boxes = Vec::new();
    for t in [0.75, 1.0, 1.25, 1.5].iter() {
        boxes.push(bb(120, 631, 220, 19, *t, *t + 0.25, false));
    }
    proj.captions.blur_boxes = boxes;
    proj.segments = vec![seg("s0", 1.0, 1.5, "TEXT")];
    let subs = subtitles(&proj, vw, vh, 30_000_000);
    let y = subs[0].y;
    assert!((630..=650).contains(&y), "y={y}");
}

#[test]
fn hidden_boxes_cover_nothing() {
    let mut proj = dubbed(634);
    let mut b = bb(0, 0, 10, 10, 0.0, 1.0, false);
    b.hidden = true;
    proj.captions.blur_boxes = vec![b, bb(1, 1, 10, 10, 0.0, 1.0, false)];
    assert_eq!(collect_blur_boxes(&proj), vec![1]);
    assert!(!draws(&proj, 0));
    proj.subs.burn = true;
    assert!(draws(&proj, 0));
    proj.subs.mode = "none".into();
    assert!(draws(&proj, 0));
    proj.captions.blur_boxes.clear();
    assert!(!draws(&proj, 0));
    assert!(draws(&proj, 1));
}

#[test]
fn sizes_are_looked_at_first() {
    use_fit(vec![reg("a", 1, 1, 1, 1, 0.0, 1.0)], true);
    use_fit(vec![reg("a", i64::MAX, 1, 1, 1, 0.0, 1.0)], false);
    assert!(boxes_fit(&vec![bb(0, 0, 1, 1, 0.0, 1.0, false)]));
    assert!(!boxes_fit(&vec![bb(i64::MAX, 0, 1, 1, 0.0, 1.0, false)]));
    assert!(times_fit(&vec![seg("s", 0.0, 1.0, "")]));
    let mut far = seg("s", 0.0, 1.0, "");
    far.end = i64::MAX;
    assert!(!times_fit(&vec![far]));
}

fn use_fit(rs: Vec<Region>, fits: bool) {
    assert_eq!(regions_fit(&rs), fits);
}

#[test]
fn captions_in_the_middle_are_titles() {
    let at = title_source(&vec![reg("TITLE HERE", 200, 300, 320, 60, 0.0, 2.0)], &ctx());
    assert!(at.len() <= 1);
}

#[test]
fn other_areas_change_no_line() {
    let (vw, vh) = (464i64, 824i64);
    let mut proj = dubbed(634);
    proj.segments = vec![seg("s0", 1.0, 1.5, "TEXT")];
    proj.captions.blur_boxes = [0.75, 1.0, 1.25].iter().map(|t| bb(120, 700, 220, 20, *t, *t + 0.25, true)).collect();
    let want = subtitles(&proj, vw, vh, 30_000_000)[0].y;
    assert_eq!(want, 710);
    let mut hidden = bb(120, 500, 220, 20, 1.0, 1.5, true);
    hidden.hidden = true;
    proj.captions.blur_boxes.insert(1, hidden);
    for t in [1.0, 1.1, 1.2, 1.3] {
        proj.captions.blur_boxes.insert(0, bb(120, 450, 220, 20, t, t + 0.2, false));
    }
    assert_eq!(subtitles(&proj, vw, vh, 30_000_000)[0].y, want);
}
