//! One picture of the film, for the editor.

use crate::captions;
use crate::text;
use vstd::prelude::*;

verus! {

/// The width of a picture while the film plays: a large one is made smaller, so that its longer side is
/// about 960; an even number, at least two.
pub open spec fn width_for(vw: int, vh: int, lowres: bool) -> Option<int> {
    let long = if vw > vh {
        vw
    } else {
        vh
    };
    if lowres && long > 1280 {
        let half = (960 * vw + long) / (2 * long);
        Some(
            if 2 * half < 2 {
                2
            } else {
                2 * half
            },
        )
    } else {
        None
    }
}

/// The width of a picture while the film plays; nothing where it keeps its size.
pub fn scale_width(vw: i64, vh: i64, lowres: bool) -> (r: Option<i64>)
    requires
        0 <= vw <= captions::PIXEL_LIMIT,
        0 <= vh <= captions::PIXEL_LIMIT,
    ensures
        (match r {
            Some(w) => Some(w as int),
            None => None,
        }) == width_for(vw as int, vh as int, lowres),
{
    let long: i64 = if vw > vh {
        vw
    } else {
        vh
    };
    if lowres && long > 1280 {
        let half: i64 = (960 * vw + long) / (2 * long);
        proof {
            assert(0 <= (960 * vw + long) / (2 * long) <= 481) by (nonlinear_arith)
                requires
                    0 <= vw <= long,
                    long > 0,
            ;
        }
        Some(
            if 2 * half < 2 {
                2
            } else {
                2 * half
            },
        )
    } else {
        None
    }
}

/// The name of the picture's file: one for each size.
pub fn preview_name(small: bool) -> (r: &'static str)
    ensures
        r@ == if small {
            "_preview_lr.jpg"@
        } else {
            "_preview.jpg"@
        },
{
    if small {
        "_preview_lr.jpg"
    } else {
        "_preview.jpg"
    }
}

/// As much of a failed program's report is passed on.
pub const REPORT_LENGTH: usize = 600;

/// The end of a failed program's report.
pub fn report_tail(report: &str) -> (r: String)
    ensures
        r@ == text::tail(report@, REPORT_LENGTH as nat),
{
    text::last_chars(report, REPORT_LENGTH)
}

/// A picture is never made larger, and its width is even.
pub proof fn law_smaller_width(vw: int, vh: int, lowres: bool)
    requires
        2 <= vw,
        0 <= vh,
    ensures
        width_for(vw, vh, lowres) matches Some(w) ==> w <= vw && w % 2 == 0 && 2 <= w <= 960,
{
    let long = if vw > vh {
        vw
    } else {
        vh
    };
    if lowres && long > 1280 {
        let half = (960 * vw + long) / (2 * long);
        assert(half <= 480 && half <= (vw + 1) / 2) by (nonlinear_arith)
            requires
                2 <= vw <= long,
                long > 1280,
                half == (960 * vw + long) / (2 * long),
        {
            assert(2 * long * half <= 960 * vw + long);
            if half >= 481 {
                assert(2 * long * half >= 2 * long * 481);
            }
        }
        assert(2 * half <= vw) by (nonlinear_arith)
            requires
                2 <= vw <= long,
                long > 1280,
                half == (960 * vw + long) / (2 * long),
        {
            assert(2 * long * half <= 960 * vw + long);
            if 2 * half > vw {
                assert(2 * half >= vw + 1);
                assert(long * (2 * half) >= long * (vw + 1));
                assert(long * (vw + 1) == long * vw + long);
                assert(long * vw > 960 * vw);
            }
        }
    }
}

/// A picture is made smaller only while the film plays and only if its longer side is above 1280; the longer side then
/// is 960, to the even number nearest, and the picture keeps its shape.
pub proof fn law_when_a_picture_is_made_smaller(vw: int, vh: int, lowres: bool)
    requires
        2 <= vw,
        0 <= vh,
    ensures
        ({
            let long = if vw > vh {
                vw
            } else {
                vh
            };
            &&& width_for(vw, vh, lowres) is Some <==> lowres && (vw > 1280 || vh > 1280)
            &&& width_for(vw, vh, lowres) matches Some(w) ==> (w > 2 ==> -long <= w * long - 960 * vw <= long)
            &&& vw >= vh ==> (width_for(vw, vh, lowres) matches Some(w) ==> w == 960)
        }),
{
    let long = if vw > vh {
        vw
    } else {
        vh
    };
    let half = (960 * vw + long) / (2 * long);
    assert(2 * long * half <= 960 * vw + long < 2 * long * half + 2 * long) by (nonlinear_arith)
        requires
            half == (960 * vw + long) / (2 * long),
            long > 0,
    ;
    assert(2 * long * half == (2 * half) * long) by (nonlinear_arith);
    if vw >= vh {
        assert(half == 480) by (nonlinear_arith)
            requires
                half == (960 * vw + long) / (2 * long),
                long == vw,
                vw > 0,
        ;
    }
}

} // verus!
