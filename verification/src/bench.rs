//! How long each stage of a job took and what it asked of the machine. Loads are whole thousandths of a
//! percent.

use crate::text;
use vstd::prelude::*;

verus! {

/// What the machine did at a moment.
#[derive(Clone, Debug)]
pub struct Sample {
    pub stage: String,
    pub gpu: u64,
    pub cpu: u64,
    /// In bytes.
    pub vram: u64,
    /// In bytes.
    pub ram: u64,
}

/// The mark that ends a job.
pub const END: &'static str = "__end__";

/// The stages of a job with how long each took, by the moments at which they began.
pub open spec fn lengths(marks: Seq<(Seq<char>, int)>) -> Seq<(Seq<char>, int)>
    decreases marks.len(),
{
    if marks.len() < 2 {
        Seq::empty()
    } else {
        let before = lengths(marks.drop_last());
        let m = marks[marks.len() - 2];
        if m.0 == END@ {
            before
        } else {
            before.push((m.0, marks.last().1 - m.1))
        }
    }
}

pub open spec fn mark_views(v: Seq<(String, i64)>) -> Seq<(Seq<char>, int)> {
    v.map_values(|m: (String, i64)| (m.0@, m.1 as int))
}

pub open spec fn marks_ok(v: Seq<(String, i64)>) -> bool {
    forall|i: int| 0 <= i < v.len() ==> crate::project::time_ok((#[trigger] v[i]).1)
}

/// The stages of a job with how long each took; the last mark ends the job.
pub fn stage_lengths(marks: &Vec<(String, i64)>) -> (r: Vec<(String, i64)>)
    requires
        marks_ok(marks@),
    ensures
        mark_views(r@) == lengths(mark_views(marks@)),
{
    let ghost mv = mark_views(marks@);
    let mut out: Vec<(String, i64)> = Vec::new();
    assert(mark_views(out@) =~= Seq::empty());
    if marks.len() == 0 {
        return out;
    }
    assert(lengths(mv.take(1)) =~= Seq::empty());
    for i in 1..marks.len()
        invariant
            marks_ok(marks@),
            marks@.len() > 0,
            mv == mark_views(marks@),
            mark_views(out@) == lengths(mv.take(i as int)),
    {
        let ghost t = mv.take(i + 1);
        assert(t.drop_last() =~= mv.take(i as int));
        assert(t[t.len() - 2] == (marks@[i - 1].0@, marks@[i - 1].1 as int));
        assert(t.last() == (marks@[i as int].0@, marks@[i as int].1 as int));
        assert(crate::project::time_ok(marks@[i - 1].1));
        assert(crate::project::time_ok(marks@[i as int].1));
        if !text::same(marks[i - 1].0.as_str(), END) {
            let ghost was = mark_views(out@);
            let d: i64 = marks[i].1 - marks[i - 1].1;
            out.push((marks[i - 1].0.clone(), d));
            assert(mark_views(out@) =~= was.push((marks@[i - 1].0@, d as int)));
        }
    }
    assert(mv.take(mv.len() as int) =~= mv);
    out
}

/// What the machine did during a stage.
pub struct Load {
    pub count: nat,
    pub gpu_sum: int,
    pub gpu_max: int,
    pub cpu_sum: int,
    pub cpu_max: int,
    pub vram_max: int,
    pub ram_max: int,
}

pub open spec fn larger(a: int, b: int) -> int {
    if b > a {
        b
    } else {
        a
    }
}

/// What the machine did during the stage, by the samples.
pub open spec fn load_of(samples: Seq<Sample>, stage: Seq<char>) -> Load
    decreases samples.len(),
{
    if samples.len() == 0 {
        Load { count: 0, gpu_sum: 0, gpu_max: 0, cpu_sum: 0, cpu_max: 0, vram_max: 0, ram_max: 0 }
    } else {
        let l = load_of(samples.drop_last(), stage);
        let s = samples.last();
        if s.stage@ != stage {
            l
        } else {
            Load {
                count: l.count + 1,
                gpu_sum: l.gpu_sum + s.gpu,
                gpu_max: larger(l.gpu_max, s.gpu as int),
                cpu_sum: l.cpu_sum + s.cpu,
                cpu_max: larger(l.cpu_max, s.cpu as int),
                vram_max: larger(l.vram_max, s.vram as int),
                ram_max: larger(l.ram_max, s.ram as int),
            }
        }
    }
}

/// The number in whole units of `d`, rounded; a half goes up.
pub open spec fn rounded(x: int, d: int) -> int {
    (2 * x + d) / (2 * d)
}

/// What is reported of a stage: loads in percent, memory in units of 1,048,576 bytes.
#[derive(Clone, Debug)]
pub struct StageReport {
    pub gpu_avg: u128,
    pub gpu_max: u128,
    pub cpu_avg: u128,
    pub cpu_max: u128,
    pub vram_max: u128,
    pub ram_max: u128,
    /// The graphics card was at least as busy as the processor.
    pub gpu_bound: bool,
}

pub open spec fn is_report(r: StageReport, l: Load) -> bool {
    let n = if l.count == 0 {
        1
    } else {
        l.count as int
    };
    &&& r.gpu_avg == rounded(l.gpu_sum, 1000 * n)
    &&& r.gpu_max == rounded(l.gpu_max, 1000)
    &&& r.cpu_avg == rounded(l.cpu_sum, 1000 * n)
    &&& r.cpu_max == rounded(l.cpu_max, 1000)
    &&& r.vram_max == rounded(l.vram_max, 1_048_576)
    &&& r.ram_max == rounded(l.ram_max, 1_048_576)
    &&& r.gpu_bound == (l.gpu_sum >= l.cpu_sum)
}

fn round(x: u128, d: u128) -> (r: u128)
    requires
        0 < d <= 0x1_0000_0000_0000_0000_0000,
        x <= 0x1000_0000_0000_0000_0000_0000_0000_0000,
    ensures
        r == rounded(x as int, d as int),
{
    (2 * x + d) / (2 * d)
}

/// What is reported of a stage. There are at most 2^40 samples.
pub fn stage_report(samples: &Vec<Sample>, stage: &str) -> (r: StageReport)
    requires
        samples@.len() <= 0x100_0000_0000,
    ensures
        is_report(r, load_of(samples@, stage@)),
{
    let mut count: u128 = 0;
    let mut gpu_sum: u128 = 0;
    let mut gpu_max: u64 = 0;
    let mut cpu_sum: u128 = 0;
    let mut cpu_max: u64 = 0;
    let mut vram_max: u64 = 0;
    let mut ram_max: u64 = 0;
    assert(samples@.take(0) =~= Seq::empty());
    for i in 0..samples.len()
        invariant
            samples@.len() <= 0x100_0000_0000,
            count <= i,
            gpu_sum <= i * 0x1_0000_0000_0000_0000,
            cpu_sum <= i * 0x1_0000_0000_0000_0000,
            ({
                let l = load_of(samples@.take(i as int), stage@);
                &&& count == l.count
                &&& gpu_sum == l.gpu_sum
                &&& gpu_max == l.gpu_max
                &&& cpu_sum == l.cpu_sum
                &&& cpu_max == l.cpu_max
                &&& vram_max == l.vram_max
                &&& ram_max == l.ram_max
            }),
    {
        assert(samples@.take(i + 1).drop_last() =~= samples@.take(i as int));
        let s = &samples[i];
        if text::same(s.stage.as_str(), stage) {
            count += 1;
            gpu_sum += s.gpu as u128;
            cpu_sum += s.cpu as u128;
            if s.gpu > gpu_max {
                gpu_max = s.gpu;
            }
            if s.cpu > cpu_max {
                cpu_max = s.cpu;
            }
            if s.vram > vram_max {
                vram_max = s.vram;
            }
            if s.ram > ram_max {
                ram_max = s.ram;
            }
        }
    }
    assert(samples@.take(samples@.len() as int) =~= samples@);
    let n: u128 = if count == 0 {
        1
    } else {
        count
    };
    StageReport {
        gpu_avg: round(gpu_sum, 1000 * n),
        gpu_max: round(gpu_max as u128, 1000),
        cpu_avg: round(cpu_sum, 1000 * n),
        cpu_max: round(cpu_max as u128, 1000),
        vram_max: round(vram_max as u128, 1_048_576),
        ram_max: round(ram_max as u128, 1_048_576),
        gpu_bound: gpu_sum >= cpu_sum,
    }
}

proof fn lemma_lengths(marks: Seq<(Seq<char>, int)>)
    requires
        marks.len() > 0,
        forall|i: int| 0 <= i < marks.len() - 1 ==> (#[trigger] marks[i]).0 != END@,
    ensures
        lengths(marks).len() == marks.len() - 1,
        sum_of(lengths(marks)) == marks.last().1 - marks[0].1,
    decreases marks.len(),
{
    if marks.len() > 1 {
        let t = marks.drop_last();
        assert forall|i: int| 0 <= i < t.len() - 1 implies (#[trigger] t[i]).0 != END@ by {
            assert(t[i] == marks[i]);
        }
        lemma_lengths(t);
        assert(marks[marks.len() - 2].0 != END@);
        assert(lengths(marks).drop_last() =~= lengths(t));
        assert(t.last() == marks[marks.len() - 2]);
    }
}

/// How long the stages took together.
pub open spec fn sum_of(ls: Seq<(Seq<char>, int)>) -> int
    decreases ls.len(),
{
    if ls.len() == 0 {
        0
    } else {
        sum_of(ls.drop_last()) + ls.last().1
    }
}

/// No time is lost: the stages together took as long as it was from the first mark to the last.
pub proof fn law_stages_fill_the_time(marks: Seq<(Seq<char>, int)>)
    requires
        marks.len() > 0,
        forall|i: int| 0 <= i < marks.len() - 1 ==> (#[trigger] marks[i]).0 != END@,
    ensures
        sum_of(lengths(marks)) == marks.last().1 - marks[0].1,
{
    lemma_lengths(marks);
}

/// Each stage took from its mark to the next; the mark that ends a job is no stage.
pub proof fn law_how_long_a_stage_took(marks: Seq<(Seq<char>, int)>, a: (Seq<char>, int), b: (Seq<char>, int))
    ensures
        lengths(Seq::empty()).len() == 0,
        lengths(seq![a]).len() == 0,
        a.0 != END@ ==> lengths(marks.push(a).push(b)) == lengths(marks.push(a)).push((a.0, b.1 - a.1)),
        a.0 == END@ ==> lengths(marks.push(a).push(b)) == lengths(marks.push(a)),
{
    let all = marks.push(a).push(b);
    assert(all.drop_last() =~= marks.push(a));
    assert(all[all.len() - 2] == a);
}

/// What the machine did during a stage is summed over the samples of that stage alone, and the largest of each is kept.
pub proof fn law_load_is_measured(samples: Seq<Sample>, s: Sample, stage: Seq<char>)
    ensures
        load_of(Seq::empty(), stage).count == 0,
        s.stage@ != stage ==> load_of(samples.push(s), stage) == load_of(samples, stage),
        s.stage@ == stage ==> {
            let (was, now) = (load_of(samples, stage), load_of(samples.push(s), stage));
            &&& now.count == was.count + 1
            &&& now.gpu_sum == was.gpu_sum + s.gpu && now.cpu_sum == was.cpu_sum + s.cpu
            &&& now.gpu_max >= was.gpu_max && now.gpu_max >= s.gpu && (now.gpu_max == was.gpu_max || now.gpu_max == s.gpu)
            &&& now.cpu_max >= was.cpu_max && now.cpu_max >= s.cpu && (now.cpu_max == was.cpu_max || now.cpu_max == s.cpu)
            &&& now.vram_max >= was.vram_max && now.vram_max >= s.vram && (now.vram_max == was.vram_max || now.vram_max
                == s.vram)
            &&& now.ram_max >= was.ram_max && now.ram_max >= s.ram && (now.ram_max == was.ram_max || now.ram_max == s.ram)
        },
{
    assert(samples.push(s).drop_last() =~= samples);
}

/// A report tells the average and the largest of each, rounded, and what the stage was held up by.
pub proof fn law_report_is_rounded(x: int, d: int)
    requires
        d > 0,
    ensures
        -d <= 2 * (x - rounded(x, d) * d) < d,
{
    let q = (2 * x + d) / (2 * d);
    assert(2 * d * q <= 2 * x + d < 2 * d * q + 2 * d) by (nonlinear_arith)
        requires
            q == (2 * x + d) / (2 * d),
            d > 0,
    ;
    assert(2 * d * q == 2 * (q * d)) by (nonlinear_arith);
}

} // verus!
