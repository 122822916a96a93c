//! The per-run driver: lines consumed one by one, per-line statistics
//! accumulated into per-tool totals, a fresh accumulator opened at each
//! tool change, and the run sealed at the end-of-program code.

use vstd::prelude::*;

use crate::calculator::{lemma_stats_nonneg, spec_stats};
use crate::errors::GcodeError;
use crate::gcode_lexer::{lemma_line_depacker_wf, spec_line_depacker};
use crate::lineparser::{codes_bounded, lemma_parse_line_bounded, parse_line, spec_parse_line};
use crate::objects_def::{Cnc, Coord, Machine, Status, Tool};
use crate::warnings::{spec_warn_types, WarnType, Warnlog};

verus! {

/// Addition that sticks at the largest representable total instead of
/// wrapping.
pub open spec fn sat_add(a: int, b: int) -> int {
    if a + b > 0x7fff_ffff_ffff_ffff {
        0x7fff_ffff_ffff_ffff as int
    } else {
        a + b
    }
}

/// Saturating addition of two nonnegative totals.
fn sat_add_i64(a: i64, b: i64) -> (r: i64)
    requires
        a >= 0,
        b >= 0,
    ensures
        r == sat_add(a as int, b as int),
        r >= 0,
{
    if a > i64::MAX - b {
        i64::MAX
    } else {
        a + b
    }
}

/// One aggregation step: a changed tool number seals the open accumulator
/// and opens a fresh one, then the line's contributions are added into the
/// open accumulator.
pub open spec fn spec_agg_step(
    tools: Seq<Tool>,
    cur: Tool,
    tn: Option<u8>,
    t: int,
    d: int,
) -> (Seq<Tool>, Tool) {
    let sealed = if tn != cur.tool_number {
        tools.push(cur)
    } else {
        tools
    };
    let open = if tn != cur.tool_number {
        Tool { tool_number: tn, duration: 0, distance: 0 }
    } else {
        cur
    };
    (
        sealed,
        Tool {
            tool_number: open.tool_number,
            duration: sat_add(open.duration as int, t) as i64,
            distance: sat_add(open.distance as int, d) as i64,
        },
    )
}

/// The machine a fresh run starts with.
pub open spec fn spec_machine_new(config: Cnc) -> Machine {
    Machine {
        move_type: None,
        pos: Coord { x: Some(0i64), y: Some(0i64), z: Some(0i64), i: None, j: None, k: None },
        max_speed: (config.speed_x, config.speed_y, config.speed_z),
        speed: None,
        unit: None,
        reference: None,
        tool_number: None,
        status: Status::Continue,
    }
}

/// The whole run from line `i` on: each line parsed, consumed into the
/// machine, priced, and aggregated; the end-of-program code seals the open
/// accumulator and stops; running out of lines without it is an error.
/// An error carries the index of the line it arose on.
pub open spec fn spec_run_from(
    m: Machine,
    wt: Seq<WarnType>,
    tools: Seq<Tool>,
    cur: Tool,
    lines: Seq<Seq<u8>>,
    i: int,
) -> Result<(Seq<Tool>, Seq<WarnType>), (int, GcodeError)>
    decreases lines.len() - i,
{
    if i < 0 || i >= lines.len() {
        Err((i, GcodeError::UnexpectedEndOfInput))
    } else {
        match spec_parse_line(lines[i]) {
            Err(e) => Err((i, e)),
            Ok(None) => spec_run_from(m, wt, tools, cur, lines, i + 1),
            Ok(Some(codes)) => match spec_line_depacker(m, codes) {
                Err(e) => Err((i, e)),
                Ok((m2, mg)) => match spec_stats(mg) {
                    Err(e) => Err((i, e)),
                    Ok((t, d, w)) => {
                        let wt2 = if w {
                            spec_warn_types(wt, WarnType::TooFast)
                        } else {
                            wt
                        };
                        let stepped = spec_agg_step(tools, cur, m2.tool_number, t, d);
                        if m2.status is EOP {
                            Ok((stepped.0.push(stepped.1), wt2))
                        } else {
                            spec_run_from(m2, wt2, stepped.0, stepped.1, lines, i + 1)
                        }
                    },
                },
            },
        }
    }
}

/// A whole run over the given lines' bytes, from a fresh machine, an empty
/// log and a tool-less accumulator.
pub open spec fn spec_run(lines: Seq<Seq<u8>>, config: Cnc) -> Result<
    (Seq<Tool>, Seq<WarnType>),
    (int, GcodeError),
> {
    spec_run_from(
        spec_machine_new(config),
        Seq::empty(),
        Seq::empty(),
        Tool { tool_number: None, duration: 0, distance: 0 },
        lines,
        0,
    )
}

/// Whether two optional tool numbers are the same.
fn same_tool(a: Option<u8>, b: Option<u8>) -> (r: bool)
    ensures
        r == (a == b),
{
    match (a, b) {
        (None, None) => true,
        (Some(x), Some(y)) => x == y,
        _ => false,
    }
}

/// Every sealed accumulator of a sequence has nonnegative totals.
pub open spec fn tools_nonneg(ts: Seq<Tool>) -> bool {
    forall|k: int|
        0 <= k < ts.len() ==> (#[trigger] ts[k]).duration >= 0 && ts[k].distance >= 0
}

/// Runs a whole program: consumes the lines until the end-of-program code,
/// and returns the sealed per-tool totals with the warning log, or the
/// first failure with the index of the line that raised it.
pub fn run(lines: &Vec<String>, config: Cnc) -> (r: Result<
    (Vec<Tool>, Warnlog),
    (usize, GcodeError),
>)
    requires
        config.wf(),
    ensures
        match spec_run(
            lines@.map_values(|s: String| vstd::utf8::encode_utf8(s@)),
            config,
        ) {
            Ok(out) => {
                &&& r matches Ok(v)
                &&& v.0@ == out.0
                &&& v.1.wf()
                &&& v.1.types() == out.1
                &&& tools_nonneg(v.0@)
            },
            Err(ie) => r matches Err(ev) && ev.0 == ie.0 && ev.1 == ie.1,
        },
{
    let ghost bl = lines@.map_values(|s: String| vstd::utf8::encode_utf8(s@));
    let mut machine = Machine::new(config);
    proof {
        assert(machine == spec_machine_new(config));
    }
    let mut warnlog = Warnlog::new();
    let mut tools_list: Vec<Tool> = Vec::new();
    let mut tool = Tool::new(None);

    let n = lines.len();
    let mut i: usize = 0;
    while i < n
        invariant
            0 <= i <= n,
            n == lines@.len(),
            bl == lines@.map_values(|s: String| vstd::utf8::encode_utf8(s@)),
            config.wf(),
            machine.wf(),
            warnlog.wf(),
            tool.duration >= 0,
            tool.distance >= 0,
            tools_nonneg(tools_list@),
            spec_run_from(
                spec_machine_new(config),
                Seq::empty(),
                Seq::empty(),
                Tool { tool_number: None, duration: 0, distance: 0 },
                bl,
                0,
            ) == spec_run_from(machine, warnlog.types(), tools_list@, tool, bl, i as int),
        decreases n - i,
    {
        proof {
            assert(bl[i as int] == vstd::utf8::encode_utf8(lines@[i as int]@));
        }
        let parsed = match parse_line(lines[i].as_str()) {
            Ok(Some(p)) => p,
            Ok(None) => {
                i = i + 1;
                continue ;
            },
            Err(e) => {
                return Err((i, e));
            },
        };
        let (modgroup, tool_number) = match machine.line_depacker(parsed) {
            Ok(t) => t,
            Err(e) => {
                return Err((i, e));
            },
        };
        let (t, d) = match modgroup.get_stats(&mut warnlog) {
            Ok(td) => td,
            Err(e) => {
                return Err((i, e));
            },
        };

        if !same_tool(tool_number, tool.tool_number) {
            tools_list.push(tool);
            tool.reset(tool_number);
        }
        tool.duration = sat_add_i64(tool.duration, t);
        tool.distance = sat_add_i64(tool.distance, d);

        match machine.status {
            Status::EOP => {
                tools_list.push(tool);
                proof {
                    assert(tools_nonneg(tools_list@));
                }
                return Ok((tools_list, warnlog));
            },
            Status::Continue => {},
        }
        i = i + 1;
    }
    Err((n, GcodeError::UnexpectedEndOfInput))
}

/// The summed duration of a sequence of sealed accumulators.
pub open spec fn sum_durations(ts: Seq<Tool>) -> int
    decreases ts.len(),
{
    if ts.len() == 0 {
        0
    } else {
        sum_durations(ts.drop_last()) + ts.last().duration
    }
}

/// The summed distance of a sequence of sealed accumulators.
pub open spec fn sum_distances(ts: Seq<Tool>) -> int
    decreases ts.len(),
{
    if ts.len() == 0 {
        0
    } else {
        sum_distances(ts.drop_last()) + ts.last().distance
    }
}

/// The summed duration of the contributions from line `i` on.
pub open spec fn sum_dur_from(cs: Seq<Tool>, i: int) -> int
    decreases cs.len() - i,
{
    if i < 0 || i >= cs.len() {
        0
    } else {
        cs[i].duration + sum_dur_from(cs, i + 1)
    }
}

/// The summed distance of the contributions from line `i` on.
pub open spec fn sum_dist_from(cs: Seq<Tool>, i: int) -> int
    decreases cs.len() - i,
{
    if i < 0 || i >= cs.len() {
        0
    } else {
        cs[i].distance + sum_dist_from(cs, i + 1)
    }
}

/// The aggregation alone, folded over a sequence of per-line contributions
/// (each one a tool number with that line's duration and distance), exactly
/// as the run applies it line by line.
pub open spec fn spec_aggregate_from(cs: Seq<Tool>, tools: Seq<Tool>, cur: Tool, i: int) -> (
    Seq<Tool>,
    Tool,
)
    decreases cs.len() - i,
{
    if i < 0 || i >= cs.len() {
        (tools, cur)
    } else {
        let stepped = spec_agg_step(
            tools,
            cur,
            cs[i].tool_number,
            cs[i].duration as int,
            cs[i].distance as int,
        );
        spec_aggregate_from(cs, stepped.0, stepped.1, i + 1)
    }
}

/// Sealing one more accumulator adds exactly its totals.
proof fn lemma_sum_push(ts: Seq<Tool>, x: Tool)
    ensures
        sum_durations(ts.push(x)) == sum_durations(ts) + x.duration,
        sum_distances(ts.push(x)) == sum_distances(ts) + x.distance,
{
    assert(ts.push(x).drop_last() =~= ts);
}

/// Sums of nonnegative accumulators are nonnegative.
proof fn lemma_sums_nonneg(ts: Seq<Tool>)
    requires
        tools_nonneg(ts),
    ensures
        sum_durations(ts) >= 0,
        sum_distances(ts) >= 0,
    decreases ts.len(),
{
    if ts.len() > 0 {
        assert forall|k: int|
            0 <= k < ts.drop_last().len() implies (#[trigger] ts.drop_last()[k]).duration >= 0
            && ts.drop_last()[k].distance >= 0 by {
            assert(ts.drop_last()[k] == ts[k]);
        }
        lemma_sums_nonneg(ts.drop_last());
    }
}

/// Suffix sums of nonnegative contributions are nonnegative.
proof fn lemma_suffix_nonneg(cs: Seq<Tool>, i: int)
    requires
        tools_nonneg(cs),
    ensures
        sum_dur_from(cs, i) >= 0,
        sum_dist_from(cs, i) >= 0,
    decreases cs.len() - i,
{
    if 0 <= i < cs.len() {
        lemma_suffix_nonneg(cs, i + 1);
    }
}

/// The inductive heart of the partition law: aggregating the remaining
/// contributions onto any intermediate state grows the grand total by
/// exactly their sum, as long as the true total is representable.
proof fn lemma_agg_partial(cs: Seq<Tool>, tools: Seq<Tool>, cur: Tool, i: int)
    requires
        tools_nonneg(cs),
        tools_nonneg(tools),
        cur.duration >= 0,
        cur.distance >= 0,
        sum_durations(tools) + cur.duration + sum_dur_from(cs, i) <= 0x7fff_ffff_ffff_ffff,
        sum_distances(tools) + cur.distance + sum_dist_from(cs, i) <= 0x7fff_ffff_ffff_ffff,
    ensures
        ({
            let r = spec_aggregate_from(cs, tools, cur, i);
            &&& sum_durations(r.0.push(r.1)) == sum_durations(tools) + cur.duration
                + sum_dur_from(cs, i)
            &&& sum_distances(r.0.push(r.1)) == sum_distances(tools) + cur.distance
                + sum_dist_from(cs, i)
        }),
    decreases cs.len() - i,
{
    lemma_sums_nonneg(tools);
    lemma_suffix_nonneg(cs, i);
    if i < 0 || i >= cs.len() {
        lemma_sum_push(tools, cur);
    } else {
        let c = cs[i];
        assert(c.duration >= 0 && c.distance >= 0);
        lemma_suffix_nonneg(cs, i + 1);
        let stepped = spec_agg_step(tools, cur, c.tool_number, c.duration as int, c.distance as int);
        if c.tool_number != cur.tool_number {
            lemma_sum_push(tools, cur);
            assert forall|k: int|
                0 <= k < tools.push(cur).len() implies (#[trigger] tools.push(cur)[k]).duration
                >= 0 && tools.push(cur)[k].distance >= 0 by {
                if k < tools.len() {
                    assert(tools.push(cur)[k] == tools[k]);
                }
            }
        }
        lemma_agg_partial(cs, stepped.0, stepped.1, i + 1);
    }
}

/// The contributions a run prices from line `i` on: for each processed
/// line, the tool number active after the line with the line's duration and
/// distance.  Meaningful where the run succeeds; cut short where it does
/// not.
pub open spec fn spec_run_contribs(m: Machine, lines: Seq<Seq<u8>>, i: int) -> Seq<
    (Option<u8>, int, int),
>
    decreases lines.len() - i,
{
    if i < 0 || i >= lines.len() {
        Seq::empty()
    } else {
        match spec_parse_line(lines[i]) {
            Err(_) => Seq::empty(),
            Ok(None) => spec_run_contribs(m, lines, i + 1),
            Ok(Some(codes)) => match spec_line_depacker(m, codes) {
                Err(_) => Seq::empty(),
                Ok((m2, mg)) => match spec_stats(mg) {
                    Err(_) => Seq::empty(),
                    Ok((t, d, _)) => if m2.status is EOP {
                        seq![(m2.tool_number, t, d)]
                    } else {
                        seq![(m2.tool_number, t, d)] + spec_run_contribs(m2, lines, i + 1)
                    },
                },
            },
        }
    }
}

/// The summed duration of a contribution sequence.
pub open spec fn contribs_dur_sum(cs: Seq<(Option<u8>, int, int)>) -> int
    decreases cs.len(),
{
    if cs.len() == 0 {
        0
    } else {
        cs[0].1 + contribs_dur_sum(cs.drop_first())
    }
}

/// The summed distance of a contribution sequence.
pub open spec fn contribs_dist_sum(cs: Seq<(Option<u8>, int, int)>) -> int
    decreases cs.len(),
{
    if cs.len() == 0 {
        0
    } else {
        cs[0].2 + contribs_dist_sum(cs.drop_first())
    }
}

/// Splitting off the first contribution splits its sums.
proof fn lemma_contrib_sums_split(c: (Option<u8>, int, int), rest: Seq<(Option<u8>, int, int)>)
    ensures
        contribs_dur_sum(seq![c] + rest) == c.1 + contribs_dur_sum(rest),
        contribs_dist_sum(seq![c] + rest) == c.2 + contribs_dist_sum(rest),
{
    assert((seq![c] + rest).drop_first() =~= rest);
    assert((seq![c] + rest)[0] == c);
}

/// Every contribution a run prices is nonnegative, in both components.
proof fn lemma_run_contribs_nonneg(m: Machine, lines: Seq<Seq<u8>>, i: int)
    requires
        m.wf(),
    ensures
        ({
            let cs = spec_run_contribs(m, lines, i);
            forall|k: int| 0 <= k < cs.len() ==> (#[trigger] cs[k]).1 >= 0 && cs[k].2 >= 0
        }),
    decreases lines.len() - i,
{
    let cs = spec_run_contribs(m, lines, i);
    if 0 <= i < lines.len() {
        match spec_parse_line(lines[i]) {
            Err(_) => {},
            Ok(None) => {
                lemma_run_contribs_nonneg(m, lines, i + 1);
                let rest = spec_run_contribs(m, lines, i + 1);
                assert(cs == rest);
                assert forall|k: int|
                    0 <= k < cs.len() implies (#[trigger] cs[k]).1 >= 0 && cs[k].2 >= 0 by {
                    assert(cs[k] == rest[k]);
                }
            },
            Ok(Some(codes)) => {
                lemma_parse_line_bounded(lines[i]);
                lemma_line_depacker_wf(m, codes);
                match spec_line_depacker(m, codes) {
                    Err(_) => {},
                    Ok((m2, mg)) => {
                        lemma_stats_nonneg(mg);
                        match spec_stats(mg) {
                            Err(_) => {},
                            Ok((t, d, _)) => {
                                let c = (m2.tool_number, t, d);
                                if m2.status is EOP {
                                    assert(cs == seq![c]);
                                    assert forall|k: int|
                                        0 <= k < cs.len() implies (#[trigger] cs[k]).1 >= 0
                                        && cs[k].2 >= 0 by {
                                        assert(cs[k] == seq![c][0]);
                                    }
                                } else {
                                    lemma_run_contribs_nonneg(m2, lines, i + 1);
                                    let rest = spec_run_contribs(m2, lines, i + 1);
                                    assert(cs == seq![c] + rest);
                                    assert forall|k: int|
                                        0 <= k < cs.len() implies (#[trigger] cs[k]).1 >= 0
                                        && cs[k].2 >= 0 by {
                                        if k == 0 {
                                            assert(cs[k] == (seq![c] + rest)[0]);
                                            assert((seq![c] + rest)[0] == c);
                                        } else {
                                            assert(cs[k] == (seq![c] + rest)[k]);
                                            assert((seq![c] + rest)[k] == rest[k - 1]);
                                        }
                                    }
                                }
                            },
                        }
                    },
                }
            },
        }
    }
}

/// Sums of nonnegative contributions are nonnegative.
proof fn lemma_contrib_sums_nonneg(cs: Seq<(Option<u8>, int, int)>)
    requires
        forall|k: int| 0 <= k < cs.len() ==> (#[trigger] cs[k]).1 >= 0 && cs[k].2 >= 0,
    ensures
        contribs_dur_sum(cs) >= 0,
        contribs_dist_sum(cs) >= 0,
    decreases cs.len(),
{
    if cs.len() > 0 {
        assert forall|k: int|
            0 <= k < cs.drop_first().len() implies (#[trigger] cs.drop_first()[k]).1 >= 0
            && cs.drop_first()[k].2 >= 0 by {
            assert(cs.drop_first()[k] == cs[k + 1]);
        }
        lemma_contrib_sums_nonneg(cs.drop_first());
    }
}

/// The inductive heart of the run-level partition law: from any
/// intermediate run state, a successful remainder grows the sealed grand
/// total by exactly the sum of the remaining lines' contributions, as long
/// as the true totals are representable.
proof fn lemma_run_partition_from(
    m: Machine,
    wt: Seq<WarnType>,
    tools: Seq<Tool>,
    cur: Tool,
    lines: Seq<Seq<u8>>,
    i: int,
)
    requires
        m.wf(),
        tools_nonneg(tools),
        cur.duration >= 0,
        cur.distance >= 0,
        spec_run_from(m, wt, tools, cur, lines, i) is Ok,
        sum_durations(tools) + cur.duration + contribs_dur_sum(spec_run_contribs(m, lines, i))
            <= 0x7fff_ffff_ffff_ffff,
        sum_distances(tools) + cur.distance + contribs_dist_sum(spec_run_contribs(m, lines, i))
            <= 0x7fff_ffff_ffff_ffff,
    ensures
        ({
            let out = spec_run_from(m, wt, tools, cur, lines, i)->Ok_0;
            &&& sum_durations(out.0) == sum_durations(tools) + cur.duration + contribs_dur_sum(
                spec_run_contribs(m, lines, i),
            )
            &&& sum_distances(out.0) == sum_distances(tools) + cur.distance + contribs_dist_sum(
                spec_run_contribs(m, lines, i),
            )
        }),
    decreases lines.len() - i,
{
    lemma_sums_nonneg(tools);
    if 0 <= i < lines.len() {
        match spec_parse_line(lines[i]) {
            Err(_) => {},
            Ok(None) => {
                lemma_run_partition_from(m, wt, tools, cur, lines, i + 1);
            },
            Ok(Some(codes)) => {
                lemma_parse_line_bounded(lines[i]);
                lemma_line_depacker_wf(m, codes);
                match spec_line_depacker(m, codes) {
                    Err(_) => {},
                    Ok((m2, mg)) => {
                        lemma_stats_nonneg(mg);
                        match spec_stats(mg) {
                            Err(_) => {},
                            Ok((t, d, w)) => {
                                let c = (m2.tool_number, t, d);
                                let rest = if m2.status is EOP {
                                    Seq::<(Option<u8>, int, int)>::empty()
                                } else {
                                    spec_run_contribs(m2, lines, i + 1)
                                };
                                lemma_contrib_sums_split(c, rest);
                                if m2.status is EOP {
                                    assert(spec_run_contribs(m, lines, i) =~= seq![c] + rest);
                                } else {
                                    lemma_run_contribs_nonneg(m2, lines, i + 1);
                                    lemma_contrib_sums_nonneg(rest);
                                }

                                let stepped = spec_agg_step(tools, cur, m2.tool_number, t, d);
                                if m2.tool_number != cur.tool_number {
                                    lemma_sum_push(tools, cur);
                                    assert forall|k: int|
                                        0 <= k < tools.push(cur).len() implies (#[trigger] tools
                                            .push(cur)[k]).duration >= 0 && tools.push(
                                            cur,
                                        )[k].distance >= 0 by {
                                        if k < tools.len() {
                                            assert(tools.push(cur)[k] == tools[k]);
                                        }
                                    }
                                }
                                assert(sum_durations(stepped.0) + stepped.1.duration
                                    == sum_durations(tools) + cur.duration + t);
                                assert(sum_distances(stepped.0) + stepped.1.distance
                                    == sum_distances(tools) + cur.distance + d);
                                if m2.status is EOP {
                                    lemma_sum_push(stepped.0, stepped.1);
                                } else {
                                    lemma_run_partition_from(
                                        m2,
                                        if w {
                                            spec_warn_types(wt, WarnType::TooFast)
                                        } else {
                                            wt
                                        },
                                        stepped.0,
                                        stepped.1,
                                        lines,
                                        i + 1,
                                    );
                                }
                            },
                        }
                    },
                }
            },
        }
    }
}

/// Tool totals are a partition of the processed lines' contributions: a
/// successful run's sealed accumulators, the final open one included, sum
/// to exactly the durations and distances its lines were priced at,
/// wherever the tool-number boundaries fall, as long as the true totals are
/// representable.
pub proof fn lemma_run_totals_partition(lines: Seq<Seq<u8>>, config: Cnc)
    requires
        config.wf(),
        spec_run(lines, config) is Ok,
        contribs_dur_sum(spec_run_contribs(spec_machine_new(config), lines, 0))
            <= 0x7fff_ffff_ffff_ffff,
        contribs_dist_sum(spec_run_contribs(spec_machine_new(config), lines, 0))
            <= 0x7fff_ffff_ffff_ffff,
    ensures
        sum_durations(spec_run(lines, config)->Ok_0.0) == contribs_dur_sum(
            spec_run_contribs(spec_machine_new(config), lines, 0),
        ),
        sum_distances(spec_run(lines, config)->Ok_0.0) == contribs_dist_sum(
            spec_run_contribs(spec_machine_new(config), lines, 0),
        ),
{
    let zero = Tool { tool_number: None, duration: 0, distance: 0 };
    lemma_run_partition_from(
        spec_machine_new(config),
        Seq::empty(),
        Seq::empty(),
        zero,
        lines,
        0,
    );
}

/// Tool totals are a partition of the lines' contributions: however the
/// tool-number boundaries fall, the sealed accumulators (the open one
/// included) sum to exactly the per-line durations and distances, as long
/// as the true totals are representable.
pub proof fn lemma_tool_totals_partition(contribs: Seq<Tool>)
    requires
        tools_nonneg(contribs),
        sum_dur_from(contribs, 0) <= 0x7fff_ffff_ffff_ffff,
        sum_dist_from(contribs, 0) <= 0x7fff_ffff_ffff_ffff,
    ensures
        ({
            let r = spec_aggregate_from(
                contribs,
                Seq::empty(),
                Tool { tool_number: None, duration: 0, distance: 0 },
                0,
            );
            &&& sum_durations(r.0.push(r.1)) == sum_dur_from(contribs, 0)
            &&& sum_distances(r.0.push(r.1)) == sum_dist_from(contribs, 0)
        }),
{
    let zero = Tool { tool_number: None, duration: 0, distance: 0 };
    lemma_agg_partial(contribs, Seq::empty(), zero, 0);
}

} // verus!
