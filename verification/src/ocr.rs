//! What the captions on the screen change in a project.

use crate::compose::reading::ComposeCtx;
use crate::project::Captions;
use crate::project::Project;
use crate::text;
use vstd::prelude::*;

verus! {

/// How many pictures of a second are looked at: at least one.
pub fn sampling(caption_fps: i32) -> (r: i32)
    ensures
        r == if caption_fps < 1 {
            1
        } else {
            caption_fps
        },
{
    if caption_fps < 1 {
        1
    } else {
        caption_fps
    }
}

/// The height of the subtitles: where their lines were seen, unless the editor has put them elsewhere.
pub open spec fn height_of(c: Captions, seen: Option<i64>) -> Option<i64> {
    if c.sub_y_locked || seen is None {
        c.sub_y
    } else {
        seen
    }
}

/// The height of the subtitles.
pub fn subtitle_height(c: &Captions, seen: Option<i64>) -> (r: Option<i64>)
    ensures
        r == height_of(*c, seen),
{
    if c.sub_y_locked || seen.is_none() {
        c.sub_y
    } else {
        seen
    }
}

/// What the titles are put together for: they are translated where the film is dubbed or its subtitles are.
pub fn compose_ctx(p: &Project, vw: i64, vh: i64, total: i64) -> (r: ComposeCtx)
    ensures
        r.vw == vw,
        r.vh == vh,
        r.total == total,
        r.do_translate == (p.mode@ == "dub"@ || p.subs.mode@ == "translate"@),
        !r.fresh_subs,
{
    ComposeCtx {
        vw,
        vh,
        total,
        do_translate: text::same(p.mode.as_str(), "dub") || text::same(
            p.subs.mode.as_str(),
            "translate",
        ),
        fresh_subs: false,
    }
}

/// Where the editor has put the subtitles they stay.
pub proof fn law_locked_height_stays(c: Captions, seen: Option<i64>)
    requires
        c.sub_y_locked,
    ensures
        height_of(c, seen) == c.sub_y,
{
}

/// The subtitles stand where their lines were seen, and where they stood if none was, unless the editor has put them
/// elsewhere.
pub proof fn law_where_the_subtitles_stand(c: Captions, y: i64)
    ensures
        !c.sub_y_locked ==> height_of(c, Some(y)) == Some(y),
        height_of(c, None) == c.sub_y,
        c.sub_y_locked ==> height_of(c, Some(y)) == c.sub_y,
{
}

} // verus!
