//! Pairing of controller-originated PDUs with their device responses.
//!
//! Frames are consumed in capture order. Every PDU of a controller-originated
//! frame opens a new record; every PDU of a device-originated frame closes
//! the most recent still-open record with the same sequence tag. Times are
//! reported relative to the timestamp of the first frame seen; a record is
//! still open while its receive time is zero, which under strictly increasing
//! capture timestamps only holds before its response arrives.
//!
//! Capture timestamps are expected to be non-decreasing; a timestamp earlier
//! than the epoch or than its request clamps to zero rather than wrapping.

use vstd::prelude::*;
use vstd::std_specs::vec::vec_index_mut;

use crate::error::{CorrelationError, CorrelationErrorModel};
use crate::pdu::{spec_command_description, Frame, FrameModel, PduModel};

verus! {

/// How many still-open sequence tags an unmatched-response error reports.
pub const RECENT_OPEN_TAGS: usize = 64;

/// One request/response pair: a row of the exported series.
#[derive(Clone, Debug, PartialEq, Eq)]
pub struct PduStat {
    /// Name of the capture this row came from.
    pub scenario: String,
    /// Capture packet index of the transmitted command.
    pub packet_number: usize,
    /// The sequence tag shared by command and response.
    pub index: u8,
    /// Mnemonic of the command.
    pub command: String,
    /// Transmit time, nanoseconds since the first captured frame.
    pub tx_time: u64,
    /// Receive time, nanoseconds since the first captured frame; zero while
    /// the record is still open.
    pub rx_time: u64,
    /// Round-trip latency in nanoseconds; zero while the record is open.
    pub delta_time: u64,
}

/// Spec-level image of a [`PduStat`].
pub struct PduStatModel {
    pub scenario: Seq<char>,
    pub packet_number: usize,
    pub index: u8,
    pub command: Seq<char>,
    pub tx_time: u64,
    pub rx_time: u64,
    pub delta_time: u64,
}

impl View for PduStat {
    type V = PduStatModel;

    open spec fn view(&self) -> PduStatModel {
        PduStatModel {
            scenario: self.scenario@,
            packet_number: self.packet_number,
            index: self.index,
            command: self.command@,
            tx_time: self.tx_time,
            rx_time: self.rx_time,
            delta_time: self.delta_time,
        }
    }
}

/// The spec-level images of a sequence of rows.
pub open spec fn stats_view(s: Seq<PduStat>) -> Seq<PduStatModel> {
    s.map_values(|p: PduStat| p@)
}

/// The spec-level images of a sequence of frames.
pub open spec fn frames_view(s: Seq<Frame>) -> Seq<FrameModel> {
    s.map_values(|f: Frame| f@)
}

/// Subtraction clamped at zero.
pub open spec fn sat_sub(a: u64, b: u64) -> u64 {
    if a >= b {
        (a - b) as u64
    } else {
        0
    }
}

/// Whether a record is still waiting for its response.
pub open spec fn spec_is_open(p: PduStatModel) -> bool {
    p.rx_time == 0
}

/// The position of the most recent still-open record carrying `tag`.
pub open spec fn spec_last_open_with_tag(pairs: Seq<PduStatModel>, tag: u8) -> Option<int>
    decreases pairs.len(),
{
    if pairs.len() == 0 {
        None
    } else if pairs.last().index == tag && spec_is_open(pairs.last()) {
        Some(pairs.len() - 1)
    } else {
        spec_last_open_with_tag(pairs.drop_last(), tag)
    }
}

/// The sequence tags of the still-open records, newest first, at most `n`.
pub open spec fn spec_open_tags_newest_first(pairs: Seq<PduStatModel>, n: int) -> Seq<u8>
    decreases pairs.len(),
{
    if pairs.len() == 0 || n <= 0 {
        Seq::empty()
    } else if spec_is_open(pairs.last()) {
        seq![pairs.last().index] + spec_open_tags_newest_first(pairs.drop_last(), n - 1)
    } else {
        spec_open_tags_newest_first(pairs.drop_last(), n)
    }
}

/// What processing one sub-message does to the record list.
///
/// A controller-originated sub-message appends a fresh open record. A
/// device-originated one closes the most recent open record with its tag; if
/// there is none, it is tolerated only on the very first capture packet (a
/// capture may start mid-session), and is an error anywhere later.
pub open spec fn spec_correlate_sub(
    pairs: Seq<PduStatModel>,
    pdu: PduModel,
    from_master: bool,
    rel_time: u64,
    packet_number: usize,
    scenario: Seq<char>,
    recent: usize,
) -> Result<Seq<PduStatModel>, CorrelationErrorModel> {
    if from_master {
        Ok(
            pairs.push(
                PduStatModel {
                    scenario,
                    packet_number,
                    index: pdu.index,
                    command: spec_command_description(pdu.command),
                    tx_time: rel_time,
                    rx_time: 0,
                    delta_time: 0,
                },
            ),
        )
    } else {
        match spec_last_open_with_tag(pairs, pdu.index) {
            Some(i) => Ok(
                pairs.update(
                    i,
                    PduStatModel {
                        scenario: pairs[i].scenario,
                        packet_number: pairs[i].packet_number,
                        index: pairs[i].index,
                        command: pairs[i].command,
                        tx_time: pairs[i].tx_time,
                        rx_time: rel_time,
                        delta_time: sat_sub(rel_time, pairs[i].tx_time),
                    },
                ),
            ),
            None => {
                if packet_number == 1 {
                    Ok(pairs)
                } else {
                    Err(
                        CorrelationErrorModel {
                            packet_number,
                            sequence_tag: pdu.index,
                            recent_open_tags: spec_open_tags_newest_first(pairs, recent as int),
                        },
                    )
                }
            },
        }
    }
}

/// Folds one frame's sub-messages, in wire order, over the record list.
pub open spec fn spec_correlate_pdus(
    pairs: Seq<PduStatModel>,
    pdus: Seq<PduModel>,
    from_master: bool,
    rel_time: u64,
    packet_number: usize,
    scenario: Seq<char>,
    recent: usize,
) -> Result<Seq<PduStatModel>, CorrelationErrorModel>
    decreases pdus.len(),
{
    if pdus.len() == 0 {
        Ok(pairs)
    } else {
        match spec_correlate_sub(pairs, pdus[0], from_master, rel_time, packet_number, scenario, recent) {
            Err(e) => Err(e),
            Ok(p2) => spec_correlate_pdus(
                p2,
                pdus.skip(1),
                from_master,
                rel_time,
                packet_number,
                scenario,
                recent,
            ),
        }
    }
}

/// Folds a stream of frames over the record list. `start` is the timestamp of
/// the first frame of the whole stream; every reported time is relative to it.
pub open spec fn spec_correlate_frames(
    pairs: Seq<PduStatModel>,
    frames: Seq<FrameModel>,
    start: u64,
    scenario: Seq<char>,
    recent: usize,
) -> Result<Seq<PduStatModel>, CorrelationErrorModel>
    decreases frames.len(),
{
    if frames.len() == 0 {
        Ok(pairs)
    } else {
        let f = frames[0];
        match spec_correlate_pdus(
            pairs,
            f.pdus,
            f.from_master,
            sat_sub(f.time, start),
            f.wireshark_packet_number,
            scenario,
            recent,
        ) {
            Err(e) => Err(e),
            Ok(p2) => spec_correlate_frames(p2, frames.skip(1), start, scenario, recent),
        }
    }
}

/// What correlating a whole capture yields: the full record list, or the
/// exact unmatched-response error.
pub open spec fn spec_correlate(
    frames: Seq<FrameModel>,
    scenario: Seq<char>,
    recent: usize,
) -> Result<Seq<PduStatModel>, CorrelationErrorModel> {
    if frames.len() == 0 {
        Ok(Seq::empty())
    } else {
        spec_correlate_frames(Seq::empty(), frames, frames[0].time, scenario, recent)
    }
}

/// How many sub-messages of the chain carry `tag`.
pub open spec fn spec_count_tag(pdus: Seq<PduModel>, tag: u8) -> int
    decreases pdus.len(),
{
    if pdus.len() == 0 {
        0
    } else {
        spec_count_tag(pdus.drop_last(), tag) + if pdus.last().index == tag {
            1int
        } else {
            0int
        }
    }
}

/// How many controller-originated sub-messages the stream holds in all.
pub open spec fn spec_ctrl_subs(frames: Seq<FrameModel>) -> int
    decreases frames.len(),
{
    if frames.len() == 0 {
        0
    } else {
        spec_ctrl_subs(frames.drop_last()) + if frames.last().from_master {
            frames.last().pdus.len() as int
        } else {
            0int
        }
    }
}

/// How many controller-originated sub-messages of the stream carry `tag`.
pub open spec fn spec_ctrl_subs_tag(frames: Seq<FrameModel>, tag: u8) -> int
    decreases frames.len(),
{
    if frames.len() == 0 {
        0
    } else {
        spec_ctrl_subs_tag(frames.drop_last(), tag) + if frames.last().from_master {
            spec_count_tag(frames.last().pdus, tag)
        } else {
            0int
        }
    }
}

/// How many device-originated sub-messages of the stream carry `tag`.
pub open spec fn spec_dev_subs_tag(frames: Seq<FrameModel>, tag: u8) -> int
    decreases frames.len(),
{
    if frames.len() == 0 {
        0
    } else {
        spec_dev_subs_tag(frames.drop_last(), tag) + if !frames.last().from_master {
            spec_count_tag(frames.last().pdus, tag)
        } else {
            0int
        }
    }
}

/// How many still-open records carry `tag`.
pub open spec fn spec_open_count(pairs: Seq<PduStatModel>, tag: u8) -> int
    decreases pairs.len(),
{
    if pairs.len() == 0 {
        0
    } else {
        spec_open_count(pairs.drop_last(), tag) + if pairs.last().index == tag && spec_is_open(
            pairs.last(),
        ) {
            1int
        } else {
            0int
        }
    }
}

/// Every completed record's latency is exactly the difference between its
/// receive and transmit times, the receive time lying strictly after the
/// transmit time.
pub open spec fn spec_records_consistent(pairs: Seq<PduStatModel>) -> bool {
    forall|i: int|
        0 <= i < pairs.len() && !spec_is_open(#[trigger] pairs[i]) ==> pairs[i].rx_time
            > pairs[i].tx_time && pairs[i].delta_time == pairs[i].rx_time - pairs[i].tx_time
}

/// The spec-level image of a correlation result.
pub open spec fn correlate_result(r: Result<Vec<PduStat>, CorrelationError>) -> Result<
    Seq<PduStatModel>,
    CorrelationErrorModel,
> {
    match r {
        Ok(pairs) => Ok(stats_view(pairs@)),
        Err(e) => Err(e@),
    }
}

/// Finds the position of the most recent still-open record carrying `tag`,
/// scanning the record list newest first.
pub fn find_last_open(pairs: &Vec<PduStat>, tag: u8) -> (r: Option<usize>)
    ensures
        match r {
            Some(i) => i < pairs@.len() && spec_last_open_with_tag(stats_view(pairs@), tag)
                == Some(i as int),
            None => spec_last_open_with_tag(stats_view(pairs@), tag) == None::<int>,
        },
{
    let ghost full = stats_view(pairs@);
    proof {
        assert(full.take(pairs@.len() as int) =~= full);
    }
    let mut j: usize = pairs.len();
    while j > 0
        invariant
            j <= pairs@.len(),
            full == stats_view(pairs@),
            spec_last_open_with_tag(full, tag) == spec_last_open_with_tag(
                full.take(j as int),
                tag,
            ),
        decreases j,
    {
        let p = &pairs[j - 1];
        proof {
            assert(full.take(j as int).last() == full[j - 1]);
            assert(full[j - 1] == pairs@[j - 1]@);
            assert(full.take(j as int).drop_last() =~= full.take(j - 1));
        }
        if p.index == tag && p.rx_time == 0 {
            return Some(j - 1);
        }
        j = j - 1;
    }
    None
}

/// Collects the sequence tags of the still-open records, newest first, up to
/// `n` of them.
pub fn open_tags_newest_first(pairs: &Vec<PduStat>, n: usize) -> (r: Vec<u8>)
    ensures
        r@ == spec_open_tags_newest_first(stats_view(pairs@), n as int),
{
    let ghost full = stats_view(pairs@);
    proof {
        assert(full.take(pairs@.len() as int) =~= full);
    }
    let mut out: Vec<u8> = Vec::new();
    let mut j: usize = pairs.len();
    while j > 0 && out.len() < n
        invariant
            j <= pairs@.len(),
            out@.len() <= n,
            full == stats_view(pairs@),
            spec_open_tags_newest_first(full, n as int) == out@ + spec_open_tags_newest_first(
                full.take(j as int),
                n - out@.len(),
            ),
        decreases j,
    {
        let p = &pairs[j - 1];
        proof {
            assert(full.take(j as int).last() == full[j - 1]);
            assert(full[j - 1] == pairs@[j - 1]@);
            assert(full.take(j as int).drop_last() =~= full.take(j - 1));
        }
        if p.rx_time == 0 {
            proof {
                let rest = spec_open_tags_newest_first(full.take(j - 1), n - out@.len() - 1);
                assert(out@ + (seq![pairs@[j - 1]@.index] + rest) =~= out@.push(p.index) + rest);
            }
            out.push(p.index);
        }
        j = j - 1;
    }
    proof {
        if j == 0 {
            assert(full.take(0).len() == 0);
            assert(spec_open_tags_newest_first(full.take(0), n - out@.len())
                =~= Seq::<u8>::empty());
        } else {
            assert(spec_open_tags_newest_first(full.take(j as int), n - out@.len())
                =~= Seq::<u8>::empty());
        }
        assert(out@ + Seq::<u8>::empty() =~= out@);
    }
    out
}

/// Correlates a capture's decoded frames into request/response records.
///
/// The result is a function of the frame stream alone: controller-originated
/// sub-messages open records, device-originated ones close the most recent
/// open record with the same tag, and an unmatched response after the first
/// capture packet aborts with a [`CorrelationError`] naming the tag, the
/// packet index and the most recent `recent` still-open tags.
pub fn correlate(frames: &Vec<Frame>, scenario: &String, recent: usize) -> (r: Result<
    Vec<PduStat>,
    CorrelationError,
>)
    ensures
        correlate_result(r) == spec_correlate(frames_view(frames@), scenario@, recent),
{
    let mut pairs: Vec<PduStat> = Vec::new();
    proof {
        assert(stats_view(pairs@) =~= Seq::<PduStatModel>::empty());
    }
    if frames.len() == 0 {
        return Ok(pairs);
    }
    let start = frames[0].time;
    let ghost fv = frames_view(frames@);
    let ghost goal = spec_correlate(fv, scenario@, recent);
    proof {
        assert(fv[0] == frames@[0]@);
        assert(fv.skip(0) =~= fv);
    }
    let mut fi: usize = 0;
    while fi < frames.len()
        invariant
            fi <= frames@.len(),
            frames@.len() > 0,
            fv == frames_view(frames@),
            start == fv[0].time,
            goal == spec_correlate(fv, scenario@, recent),
            goal == spec_correlate_frames(
                stats_view(pairs@),
                fv.skip(fi as int),
                start,
                scenario@,
                recent,
            ),
        decreases frames@.len() - fi,
    {
        let f = &frames[fi];
        let ghost fm = fv[fi as int];
        let rel: u64 = if f.time >= start {
            f.time - start
        } else {
            0
        };
        proof {
            assert(fm == frames@[fi as int]@);
            assert(fv.skip(fi as int)[0] == fm);
            assert(fv.skip(fi as int).skip(1) =~= fv.skip(fi + 1));
            assert(rel == sat_sub(fm.time, start));
            assert(fm.pdus.skip(0) =~= fm.pdus);
        }
        let mut pi: usize = 0;
        while pi < f.pdus.len()
            invariant
                pi <= f.pdus@.len(),
                fv == frames_view(frames@),
                fm == fv[fi as int],
                fi < frames@.len(),
                fm == frames@[fi as int]@,
                f == frames@[fi as int],  // hmm — f is a reference; equality of reference to element
                rel == sat_sub(fm.time, start),
                goal == spec_correlate(fv, scenario@, recent),
                goal == (match spec_correlate_pdus(
                    stats_view(pairs@),
                    fm.pdus.skip(pi as int),
                    fm.from_master,
                    rel,
                    fm.wireshark_packet_number,
                    scenario@,
                    recent,
                ) {
                    Err(e) => Err(e),
                    Ok(p2) => spec_correlate_frames(p2, fv.skip(fi + 1), start, scenario@, recent),
                }),
            decreases f.pdus@.len() - pi,
        {
            let sub = &f.pdus[pi];
            proof {
                assert(fm.pdus.skip(pi as int)[0] == fm.pdus[pi as int]);
                assert(fm.pdus[pi as int] == f.pdus@[pi as int]@);
                assert(fm.pdus.skip(pi as int).skip(1) =~= fm.pdus.skip(pi + 1));
            }
            if f.from_master {
                let ghost before = stats_view(pairs@);
                let stat = PduStat {
                    scenario: scenario.clone(),
                    packet_number: f.wireshark_packet_number,
                    index: sub.index,
                    command: sub.command.description(),
                    tx_time: rel,
                    rx_time: 0,
                    delta_time: 0,
                };
                proof {
                    assert(stats_view(pairs@.push(stat)) =~= before.push(stat@));
                }
                pairs.push(stat);
            } else {
                match find_last_open(&pairs, sub.index) {
                    Some(i) => {
                        let ghost before = stats_view(pairs@);
                        let tx = pairs[i].tx_time;
                        let delta: u64 = if rel >= tx {
                            rel - tx
                        } else {
                            0
                        };
                        let e = vec_index_mut(&mut pairs, i);
                        e.rx_time = rel;
                        e.delta_time = delta;
                        proof {
                            assert(stats_view(pairs@) =~= before.update(
                                i as int,
                                PduStatModel {
                                    scenario: before[i as int].scenario,
                                    packet_number: before[i as int].packet_number,
                                    index: before[i as int].index,
                                    command: before[i as int].command,
                                    tx_time: before[i as int].tx_time,
                                    rx_time: rel,
                                    delta_time: sat_sub(rel, before[i as int].tx_time),
                                },
                            ));
                        }
                    },
                    None => {
                        if f.wireshark_packet_number != 1 {
                            let tags = open_tags_newest_first(&pairs, recent);
                            return Err(
                                CorrelationError {
                                    packet_number: f.wireshark_packet_number,
                                    sequence_tag: sub.index,
                                    recent_open_tags: tags,
                                },
                            );
                        }
                    },
                }
            }
            pi = pi + 1;
        }
        proof {
            assert(fm.pdus.skip(pi as int).len() == 0);
        }
        fi = fi + 1;
    }
    proof {
        assert(fv.skip(fi as int).len() == 0);
    }
    Ok(pairs)
}

/// Tag counts grow with the prefix.
proof fn lemma_count_tag_take_mono(pdus: Seq<PduModel>, a: int, b: int, tag: u8)
    requires
        0 <= a <= b <= pdus.len(),
    ensures
        spec_count_tag(pdus.take(a), tag) <= spec_count_tag(pdus.take(b), tag),
    decreases b - a,
{
    if a < b {
        lemma_count_tag_take_mono(pdus, a, b - 1, tag);
        assert(pdus.take(b).drop_last() =~= pdus.take(b - 1));
    }
}

/// Open counts are never negative.
proof fn lemma_open_count_nonneg(pairs: Seq<PduStatModel>, tag: u8)
    ensures
        spec_open_count(pairs, tag) >= 0,
    decreases pairs.len(),
{
    if pairs.len() > 0 {
        lemma_open_count_nonneg(pairs.drop_last(), tag);
    }
}

/// The reverse scan comes back empty exactly when no record with the tag is
/// still open.
proof fn lemma_last_open_none_iff_count_zero(pairs: Seq<PduStatModel>, tag: u8)
    ensures
        spec_last_open_with_tag(pairs, tag) is None <==> spec_open_count(pairs, tag) == 0,
    decreases pairs.len(),
{
    lemma_open_count_nonneg(pairs, tag);
    if pairs.len() > 0 {
        lemma_last_open_none_iff_count_zero(pairs.drop_last(), tag);
        lemma_open_count_nonneg(pairs.drop_last(), tag);
    }
}

/// What the reverse scan finds is a still-open record with the tag.
proof fn lemma_last_open_found(pairs: Seq<PduStatModel>, tag: u8)
    requires
        spec_last_open_with_tag(pairs, tag) is Some,
    ensures
        ({
            let i = spec_last_open_with_tag(pairs, tag)->Some_0;
            &&& 0 <= i < pairs.len()
            &&& pairs[i].index == tag
            &&& spec_is_open(pairs[i])
        }),
    decreases pairs.len(),
{
    if pairs.len() > 0 {
        if !(pairs.last().index == tag && spec_is_open(pairs.last())) {
            lemma_last_open_found(pairs.drop_last(), tag);
        }
    }
}

/// Closing one open record lowers its tag's open count by one and no other.
proof fn lemma_open_count_update_close(pairs: Seq<PduStatModel>, i: int, v: PduStatModel)
    requires
        0 <= i < pairs.len(),
        spec_is_open(pairs[i]),
        !spec_is_open(v),
        v.index == pairs[i].index,
    ensures
        forall|tag: u8|
            spec_open_count(pairs.update(i, v), tag) == spec_open_count(pairs, tag) - (
            if tag == pairs[i].index {
                1int
            } else {
                0int
            }),
    decreases pairs.len(),
{
    let t = pairs.update(i, v);
    if i == pairs.len() - 1 {
        assert(t.drop_last() =~= pairs.drop_last());
        assert(t.last() == v);
        assert forall|tag: u8|
            spec_open_count(t, tag) == spec_open_count(pairs, tag) - (if tag == pairs[i].index {
                1int
            } else {
                0int
            }) by {
            assert(pairs.last() == pairs[i]);
        }
    } else {
        assert(t.drop_last() =~= pairs.drop_last().update(i, v));
        assert(t.last() == pairs.last());
        assert(pairs.drop_last()[i] == pairs[i]);
        lemma_open_count_update_close(pairs.drop_last(), i, v);
        assert forall|tag: u8|
            spec_open_count(t, tag) == spec_open_count(pairs, tag) - (if tag == pairs[i].index {
                1int
            } else {
                0int
            }) by {
            assert(spec_open_count(pairs.drop_last().update(i, v), tag) == spec_open_count(
                pairs.drop_last(),
                tag,
            ) - (if tag == pairs[i].index {
                1int
            } else {
                0int
            }));
        }
    }
}

/// When no tag has an open record, every record is completed.
proof fn lemma_no_opens_all_closed(pairs: Seq<PduStatModel>)
    requires
        forall|tag: u8| spec_open_count(pairs, tag) == 0,
    ensures
        forall|i: int| 0 <= i < pairs.len() ==> !spec_is_open(#[trigger] pairs[i]),
    decreases pairs.len(),
{
    if pairs.len() > 0 {
        let last = pairs.last();
        lemma_open_count_nonneg(pairs.drop_last(), last.index);
        assert(spec_open_count(pairs, last.index) == 0);
        assert(!spec_is_open(last));
        assert forall|tag: u8| #[trigger] spec_open_count(pairs.drop_last(), tag) == 0 by {
            assert(spec_open_count(pairs, tag) == 0);
        }
        lemma_no_opens_all_closed(pairs.drop_last());
        assert(forall|i: int|
            0 <= i < pairs.len() - 1 ==> #[trigger] pairs[i] == pairs.drop_last()[i]);
    }
}

/// Folding a controller frame's sub-messages appends one fresh open record
/// per sub-message, leaving the existing records untouched.
proof fn lemma_ctrl_pdus(
    pairs: Seq<PduStatModel>,
    pdus: Seq<PduModel>,
    rel: u64,
    pn: usize,
    scenario: Seq<char>,
    recent: usize,
    j: int,
)
    requires
        0 <= j <= pdus.len(),
    ensures
        spec_correlate_pdus(pairs, pdus.skip(j), true, rel, pn, scenario, recent) matches Ok(res)
            && {
            &&& res.len() == pairs.len() + pdus.len() - j
            &&& forall|tag: u8|
                #[trigger] spec_open_count(res, tag) == spec_open_count(pairs, tag) + (
                spec_count_tag(pdus, tag) - spec_count_tag(pdus.take(j), tag))
            &&& forall|i: int| 0 <= i < pairs.len() ==> #[trigger] res[i] == pairs[i]
            &&& forall|i: int|
                pairs.len() <= i < res.len() ==> (#[trigger] res[i]).tx_time == rel
                    && res[i].rx_time == 0 && res[i].delta_time == 0
        },
    decreases pdus.len() - j,
{
    if j == pdus.len() {
        assert(pdus.skip(j).len() == 0);
        assert(pdus.take(j) =~= pdus);
    } else {
        let sub = pdus[j];
        let new_rec = PduStatModel {
            scenario,
            packet_number: pn,
            index: sub.index,
            command: spec_command_description(sub.command),
            tx_time: rel,
            rx_time: 0,
            delta_time: 0,
        };
        let p2 = pairs.push(new_rec);
        assert(pdus.skip(j)[0] == sub);
        assert(spec_correlate_sub(pairs, sub, true, rel, pn, scenario, recent) == Ok::<
            _,
            CorrelationErrorModel,
        >(p2));
        assert(pdus.skip(j).skip(1) =~= pdus.skip(j + 1));
        lemma_ctrl_pdus(p2, pdus, rel, pn, scenario, recent, j + 1);
        assert(p2.drop_last() =~= pairs);
        assert(forall|tag: u8|
            #[trigger] spec_open_count(p2, tag) == spec_open_count(pairs, tag) + (
            if tag == sub.index {
                1int
            } else {
                0int
            }));
        assert(pdus.take(j + 1).drop_last() =~= pdus.take(j));
        assert(pdus.take(j + 1).last() == sub);
    }
}

/// Folding a device frame's sub-messages closes, per sub-message, the most
/// recent open record with its tag, provided every remaining response is
/// covered by an open record. Transmit times and tags never change, and a
/// record closes with its receive time set to the frame's relative time.
proof fn lemma_dev_pdus(
    pairs: Seq<PduStatModel>,
    pdus: Seq<PduModel>,
    rel: u64,
    pn: usize,
    scenario: Seq<char>,
    recent: usize,
    j: int,
)
    requires
        0 <= j <= pdus.len(),
        j < pdus.len() ==> rel > 0,
        forall|tag: u8|
            spec_count_tag(pdus, tag) - spec_count_tag(pdus.take(j), tag)
                <= #[trigger] spec_open_count(pairs, tag),
    ensures
        spec_correlate_pdus(pairs, pdus.skip(j), false, rel, pn, scenario, recent) matches Ok(res)
            && {
            &&& res.len() == pairs.len()
            &&& forall|tag: u8|
                #[trigger] spec_open_count(res, tag) == spec_open_count(pairs, tag) - (
                spec_count_tag(pdus, tag) - spec_count_tag(pdus.take(j), tag))
            &&& forall|i: int|
                0 <= i < res.len() ==> (#[trigger] res[i]).index == pairs[i].index
                    && res[i].tx_time == pairs[i].tx_time
            &&& forall|i: int|
                0 <= i < res.len() && !spec_is_open(pairs[i]) ==> #[trigger] res[i] == pairs[i]
            &&& forall|i: int|
                0 <= i < res.len() && spec_is_open(#[trigger] res[i]) ==> res[i] == pairs[i]
            &&& forall|i: int|
                0 <= i < res.len() && spec_is_open(pairs[i]) && !spec_is_open(#[trigger] res[i])
                    ==> res[i].rx_time == rel && res[i].delta_time == sat_sub(
                    rel,
                    pairs[i].tx_time,
                )
        },
    decreases pdus.len() - j,
{
    if j == pdus.len() {
        assert(pdus.skip(j).len() == 0);
        assert(pdus.take(j) =~= pdus);
    } else {
        let sub = pdus[j];
        let tag = sub.index;
        assert(pdus.skip(j)[0] == sub);
        assert(pdus.take(j + 1).drop_last() =~= pdus.take(j));
        assert(pdus.take(j + 1).last() == sub);
        lemma_count_tag_take_mono(pdus, j + 1, pdus.len() as int, tag);
        assert(pdus.take(pdus.len() as int) =~= pdus);
        // At least one response with this tag remains, so an open record
        // with it exists.
        assert(spec_open_count(pairs, tag) >= 1);
        lemma_last_open_none_iff_count_zero(pairs, tag);
        assert(spec_last_open_with_tag(pairs, tag) is Some);
        lemma_last_open_found(pairs, tag);
        let i = spec_last_open_with_tag(pairs, tag)->Some_0;
        let closed = PduStatModel {
            scenario: pairs[i].scenario,
            packet_number: pairs[i].packet_number,
            index: pairs[i].index,
            command: pairs[i].command,
            tx_time: pairs[i].tx_time,
            rx_time: rel,
            delta_time: sat_sub(rel, pairs[i].tx_time),
        };
        let p2 = pairs.update(i, closed);
        assert(spec_correlate_sub(pairs, sub, false, rel, pn, scenario, recent) == Ok::<
            _,
            CorrelationErrorModel,
        >(p2));
        assert(pdus.skip(j).skip(1) =~= pdus.skip(j + 1));
        assert(!spec_is_open(closed));
        lemma_open_count_update_close(pairs, i, closed);
        assert(forall|t2: u8|
            spec_count_tag(pdus, t2) - spec_count_tag(pdus.take(j + 1), t2)
                <= #[trigger] spec_open_count(p2, t2));
        lemma_dev_pdus(p2, pdus, rel, pn, scenario, recent, j + 1);
        let res = spec_correlate_pdus(p2, pdus.skip(j + 1), false, rel, pn, scenario, recent)
            ->Ok_0;
        assert(spec_correlate_pdus(pairs, pdus.skip(j), false, rel, pn, scenario, recent) == Ok::<
            _,
            CorrelationErrorModel,
        >(res));
        // The per-record conclusions compose across the single update at `i`.
        assert forall|k: int| 0 <= k < res.len() implies (#[trigger] res[k]).index
            == pairs[k].index && res[k].tx_time == pairs[k].tx_time by {
            assert(p2[k].index == pairs[k].index && p2[k].tx_time == pairs[k].tx_time);
        }
        assert forall|k: int|
            0 <= k < res.len() && !spec_is_open(pairs[k]) implies #[trigger] res[k]
            == pairs[k] by {
            assert(k != i);
            assert(p2[k] == pairs[k]);
        }
        assert forall|k: int|
            0 <= k < res.len() && spec_is_open(#[trigger] res[k]) implies res[k] == pairs[k] by {
            assert(res[k] == p2[k]);
            assert(k != i);
        }
        assert forall|k: int|
            0 <= k < res.len() && spec_is_open(pairs[k]) && !spec_is_open(#[trigger] res[k])
            implies res[k].rx_time == rel && res[k].delta_time == sat_sub(
            rel,
            pairs[k].tx_time,
        ) by {
            if k == i {
                assert(!spec_is_open(p2[k]));
                assert(res[k] == p2[k]);
            } else {
                assert(p2[k] == pairs[k]);
            }
        }
    }
}

/// Tag counts are never negative.
proof fn lemma_count_tag_nonneg(pdus: Seq<PduModel>, tag: u8)
    ensures
        spec_count_tag(pdus, tag) >= 0,
    decreases pdus.len(),
{
    if pdus.len() > 0 {
        lemma_count_tag_nonneg(pdus.drop_last(), tag);
    }
}

/// The inductive heart of the conservation law: folding the rest of a
/// balanced stream from any reachable state succeeds, yields one record per
/// command, and keeps every completed record's latency exact.
proof fn lemma_conservation_frames(
    frames: Seq<FrameModel>,
    scenario: Seq<char>,
    recent: usize,
    start: u64,
    k: int,
    pairs: Seq<PduStatModel>,
)
    requires
        frames.len() > 0,
        start == frames[0].time,
        0 <= k <= frames.len(),
        forall|a: int, b: int| 0 <= a < b < frames.len() ==> frames[a].time < frames[b].time,
        forall|j: int, tag: u8|
            0 <= j <= frames.len() ==> spec_dev_subs_tag(frames.take(j), tag)
                <= #[trigger] spec_ctrl_subs_tag(frames.take(j), tag),
        pairs.len() == spec_ctrl_subs(frames.take(k)),
        forall|tag: u8|
            #[trigger] spec_open_count(pairs, tag) == spec_ctrl_subs_tag(frames.take(k), tag)
                - spec_dev_subs_tag(frames.take(k), tag),
        spec_records_consistent(pairs),
        forall|a: int, b: int|
            #![trigger pairs[a], pairs[b]]
            0 <= a < b < pairs.len() ==> pairs[a].tx_time <= pairs[b].tx_time,
        forall|i: int|
            0 <= i < pairs.len() ==> k >= 1 && (#[trigger] pairs[i]).tx_time <= sat_sub(
                frames[k - 1].time,
                start,
            ),
    ensures
        spec_correlate_frames(pairs, frames.skip(k), start, scenario, recent) matches Ok(res) && {
            &&& res.len() == spec_ctrl_subs(frames)
            &&& forall|tag: u8|
                #[trigger] spec_open_count(res, tag) == spec_ctrl_subs_tag(frames, tag)
                    - spec_dev_subs_tag(frames, tag)
            &&& spec_records_consistent(res)
            &&& forall|a: int, b: int|
                #![trigger res[a], res[b]]
                0 <= a < b < res.len() ==> res[a].tx_time <= res[b].tx_time
        },
    decreases frames.len() - k,
{
    if k == frames.len() {
        assert(frames.skip(k).len() == 0);
        assert(frames.take(k) =~= frames);
    } else {
        let f = frames[k];
        let rel = sat_sub(f.time, start);
        let pn = f.wireshark_packet_number;
        assert(frames.skip(k)[0] == f);
        assert(frames.skip(k).skip(1) =~= frames.skip(k + 1));
        assert(frames.take(k + 1).drop_last() =~= frames.take(k));
        assert(frames.take(k + 1).last() == f);
        // Every frame's timestamp lies at or after the epoch, strictly after
        // it from the second frame on.
        assert(k >= 1 ==> f.time > start);
        assert(k >= 1 ==> rel >= 1);
        if f.from_master {
            lemma_ctrl_pdus(pairs, f.pdus, rel, pn, scenario, recent, 0);
            assert(f.pdus.skip(0) =~= f.pdus);
            assert(f.pdus.take(0) =~= Seq::<PduModel>::empty());
            let p2 = spec_correlate_pdus(pairs, f.pdus, true, rel, pn, scenario, recent)->Ok_0;
            assert(p2.len() == spec_ctrl_subs(frames.take(k + 1)));
            assert forall|tag: u8|
                #[trigger] spec_open_count(p2, tag) == spec_ctrl_subs_tag(
                    frames.take(k + 1),
                    tag,
                ) - spec_dev_subs_tag(frames.take(k + 1), tag) by {
                assert(spec_open_count(pairs, tag) == spec_ctrl_subs_tag(frames.take(k), tag)
                    - spec_dev_subs_tag(frames.take(k), tag));
            }
            assert(spec_records_consistent(p2)) by {
                assert(forall|i: int|
                    0 <= i < pairs.len() ==> #[trigger] p2[i] == pairs[i]);
                assert(forall|i: int|
                    pairs.len() <= i < p2.len() ==> spec_is_open(#[trigger] p2[i]));
            }
            assert forall|i: int|
                0 <= i < p2.len() implies k + 1 >= 1 && (#[trigger] p2[i]).tx_time <= sat_sub(
                frames[k].time,
                start,
            ) by {
                if i < pairs.len() {
                    assert(p2[i] == pairs[i]);
                    assert(pairs[i].tx_time <= sat_sub(frames[k - 1].time, start));
                    assert(frames[k - 1].time < frames[k].time);
                } else {
                    assert(p2[i].tx_time == rel);
                }
            }
            assert forall|a: int, b: int|
                #![trigger p2[a], p2[b]]
                0 <= a < b < p2.len() implies p2[a].tx_time <= p2[b].tx_time by {
                if b < pairs.len() {
                    assert(p2[a] == pairs[a] && p2[b] == pairs[b]);
                } else {
                    assert(p2[b].tx_time == rel);
                    if a < pairs.len() {
                        assert(p2[a] == pairs[a]);
                        assert(pairs[a].tx_time <= sat_sub(frames[k - 1].time, start));
                        assert(frames[k - 1].time < frames[k].time);
                    } else {
                        assert(p2[a].tx_time == rel);
                    }
                }
            }
            lemma_conservation_frames(frames, scenario, recent, start, k + 1, p2);
        } else {
            // Every response of this frame is covered by a still-open
            // command: the prefix balance says so.
            assert forall|tag: u8|
                spec_count_tag(f.pdus, tag) - spec_count_tag(
                    f.pdus.take(0),
                    tag,
                ) <= #[trigger] spec_open_count(pairs, tag) by {
                assert(f.pdus.take(0) =~= Seq::<PduModel>::empty());
                assert(spec_dev_subs_tag(frames.take(k + 1), tag) <= spec_ctrl_subs_tag(
                    frames.take(k + 1),
                    tag,
                ));
                assert(spec_dev_subs_tag(frames.take(k + 1), tag) == spec_dev_subs_tag(
                    frames.take(k),
                    tag,
                ) + spec_count_tag(f.pdus, tag));
                assert(spec_ctrl_subs_tag(frames.take(k + 1), tag) == spec_ctrl_subs_tag(
                    frames.take(k),
                    tag,
                ));
            }
            // A device frame with sub-messages cannot be the very first
            // frame of a balanced stream, so its relative time is positive.
            if f.pdus.len() > 0 {
                let t0 = f.pdus.last().index;
                assert(spec_count_tag(f.pdus, t0) >= 1) by {
                    lemma_count_tag_nonneg(f.pdus.drop_last(), t0);
                }
                assert(f.pdus.take(0) =~= Seq::<PduModel>::empty());
                if k == 0 {
                    assert(pairs.len() == 0);
                    assert(spec_open_count(pairs, t0) == 0);
                    assert(false);
                }
                assert(rel > 0);
            }
            lemma_dev_pdus(pairs, f.pdus, rel, pn, scenario, recent, 0);
            assert(f.pdus.skip(0) =~= f.pdus);
            let p2 = spec_correlate_pdus(pairs, f.pdus, false, rel, pn, scenario, recent)->Ok_0;
            assert(p2.len() == spec_ctrl_subs(frames.take(k + 1)));
            assert forall|tag: u8|
                #[trigger] spec_open_count(p2, tag) == spec_ctrl_subs_tag(
                    frames.take(k + 1),
                    tag,
                ) - spec_dev_subs_tag(frames.take(k + 1), tag) by {
                assert(f.pdus.take(0) =~= Seq::<PduModel>::empty());
                assert(spec_open_count(pairs, tag) == spec_ctrl_subs_tag(frames.take(k), tag)
                    - spec_dev_subs_tag(frames.take(k), tag));
            }
            assert(spec_records_consistent(p2)) by {
                assert forall|i: int|
                    0 <= i < p2.len() && !spec_is_open(#[trigger] p2[i]) implies p2[i].rx_time
                    > p2[i].tx_time && p2[i].delta_time == p2[i].rx_time - p2[i].tx_time by {
                    if spec_is_open(pairs[i]) {
                        assert(p2[i].rx_time == rel);
                        assert(p2[i].tx_time == pairs[i].tx_time);
                        assert(pairs[i].tx_time <= sat_sub(frames[k - 1].time, start));
                        assert(frames[k - 1].time < f.time);
                        assert(p2[i].delta_time == sat_sub(rel, pairs[i].tx_time));
                    } else {
                        assert(p2[i] == pairs[i]);
                    }
                }
            }
            assert forall|i: int|
                0 <= i < p2.len() implies k + 1 >= 1 && (#[trigger] p2[i]).tx_time <= sat_sub(
                frames[k].time,
                start,
            ) by {
                assert(p2[i].tx_time == pairs[i].tx_time);
                assert(pairs[i].tx_time <= sat_sub(frames[k - 1].time, start));
                assert(frames[k - 1].time < frames[k].time);
            }
            assert forall|a: int, b: int|
                #![trigger p2[a], p2[b]]
                0 <= a < b < p2.len() implies p2[a].tx_time <= p2[b].tx_time by {
                assert(p2[a].tx_time == pairs[a].tx_time);
                assert(p2[b].tx_time == pairs[b].tx_time);
            }
            lemma_conservation_frames(frames, scenario, recent, start, k + 1, p2);
        }
    }
}

/// Correlation conservation. Over a stream whose capture timestamps
/// strictly increase, where no prefix holds more device responses than
/// controller commands carrying any one sequence tag, and where each tag's
/// totals agree, correlation succeeds and produces exactly one record per
/// controller-originated sub-message — every one of them completed, with its
/// latency exactly the receive time minus the transmit time, the records in
/// transmit order.
pub proof fn lemma_correlation_conservation(
    frames: Seq<FrameModel>,
    scenario: Seq<char>,
    recent: usize,
)
    requires
        forall|a: int, b: int| 0 <= a < b < frames.len() ==> frames[a].time < frames[b].time,
        forall|j: int, tag: u8|
            0 <= j <= frames.len() ==> spec_dev_subs_tag(frames.take(j), tag)
                <= #[trigger] spec_ctrl_subs_tag(frames.take(j), tag),
        forall|tag: u8|
            #[trigger] spec_dev_subs_tag(frames, tag) == spec_ctrl_subs_tag(frames, tag),
    ensures
        spec_correlate(frames, scenario, recent) matches Ok(pairs) && {
            &&& pairs.len() == spec_ctrl_subs(frames)
            &&& forall|i: int| 0 <= i < pairs.len() ==> !spec_is_open(#[trigger] pairs[i])
            &&& forall|i: int|
                0 <= i < pairs.len() ==> (#[trigger] pairs[i]).delta_time == pairs[i].rx_time
                    - pairs[i].tx_time
            &&& forall|a: int, b: int|
                #![trigger pairs[a], pairs[b]]
                0 <= a < b < pairs.len() ==> pairs[a].tx_time <= pairs[b].tx_time
        },
{
    if frames.len() == 0 {
        assert(spec_correlate(frames, scenario, recent) == Ok::<_, CorrelationErrorModel>(
            Seq::<PduStatModel>::empty(),
        ));
    } else {
        let start = frames[0].time;
        assert(frames.take(0) =~= Seq::<FrameModel>::empty());
        lemma_conservation_frames(
            frames,
            scenario,
            recent,
            start,
            0,
            Seq::<PduStatModel>::empty(),
        );
        assert(frames.skip(0) =~= frames);
        let res = spec_correlate_frames(
            Seq::<PduStatModel>::empty(),
            frames,
            start,
            scenario,
            recent,
        )->Ok_0;
        assert forall|tag: u8| #[trigger] spec_open_count(res, tag) == 0 by {
            assert(spec_dev_subs_tag(frames, tag) == spec_ctrl_subs_tag(frames, tag));
        }
        lemma_no_opens_all_closed(res);
    }
}

/// Device sub-messages over an empty record list on the very first capture
/// packet are all skipped without error.
proof fn lemma_dev_pdus_first_packet(
    pdus: Seq<PduModel>,
    rel: u64,
    scenario: Seq<char>,
    recent: usize,
)
    ensures
        spec_correlate_pdus(
            Seq::<PduStatModel>::empty(),
            pdus,
            false,
            rel,
            1,
            scenario,
            recent,
        ) == Ok::<Seq<PduStatModel>, CorrelationErrorModel>(Seq::<PduStatModel>::empty()),
    decreases pdus.len(),
{
    if pdus.len() > 0 {
        lemma_dev_pdus_first_packet(pdus.skip(1), rel, scenario, recent);
    }
}

/// The first-packet exception. A device-originated frame as the very first
/// capture packet finds no open request, yet produces no error and no
/// record: a capture may begin mid-session, catching a response to a command
/// that predates it.
pub proof fn lemma_first_packet_exception(f: FrameModel, scenario: Seq<char>, recent: usize)
    requires
        !f.from_master,
        f.wireshark_packet_number == 1,
    ensures
        spec_correlate(seq![f], scenario, recent) == Ok::<
            Seq<PduStatModel>,
            CorrelationErrorModel,
        >(Seq::<PduStatModel>::empty()),
{
    let frames = seq![f];
    assert(frames[0] == f);
    let rel = sat_sub(f.time, f.time);
    let none: Seq<PduStatModel> = Seq::empty();
    lemma_dev_pdus_first_packet(f.pdus, rel, scenario, recent);
    assert(spec_correlate_pdus(none, f.pdus, false, rel, 1, scenario, recent) == Ok::<
        _,
        CorrelationErrorModel,
    >(none));
    assert(frames.skip(1).len() == 0);
    assert(spec_correlate_frames(none, frames.skip(1), f.time, scenario, recent) == Ok::<
        _,
        CorrelationErrorModel,
    >(none));
    assert(spec_correlate_frames(none, frames, f.time, scenario, recent) == Ok::<
        _,
        CorrelationErrorModel,
    >(none));
}

/// Folding one more frame onto the end of a stream folds the stream first,
/// then that frame's sub-messages.
proof fn lemma_correlate_frames_push(
    pairs: Seq<PduStatModel>,
    frames: Seq<FrameModel>,
    f: FrameModel,
    start: u64,
    scenario: Seq<char>,
    recent: usize,
)
    ensures
        spec_correlate_frames(pairs, frames.push(f), start, scenario, recent) == (
        match spec_correlate_frames(pairs, frames, start, scenario, recent) {
            Err(e) => Err(e),
            Ok(p2) => spec_correlate_pdus(
                p2,
                f.pdus,
                f.from_master,
                sat_sub(f.time, start),
                f.wireshark_packet_number,
                scenario,
                recent,
            ),
        }),
    decreases frames.len(),
{
    let fp = frames.push(f);
    if frames.len() == 0 {
        assert(fp[0] == f);
        assert(fp.skip(1) =~= Seq::<FrameModel>::empty());
        assert(spec_correlate_frames(pairs, frames, start, scenario, recent) == Ok::<
            _,
            CorrelationErrorModel,
        >(pairs));
        let step = spec_correlate_pdus(
            pairs,
            f.pdus,
            f.from_master,
            sat_sub(f.time, start),
            f.wireshark_packet_number,
            scenario,
            recent,
        );
        match step {
            Err(e) => {
                assert(spec_correlate_frames(pairs, fp, start, scenario, recent) == Err::<
                    Seq<PduStatModel>,
                    _,
                >(e));
            },
            Ok(p2) => {
                assert(spec_correlate_frames(p2, fp.skip(1), start, scenario, recent) == Ok::<
                    _,
                    CorrelationErrorModel,
                >(p2));
                assert(spec_correlate_frames(pairs, fp, start, scenario, recent) == Ok::<
                    _,
                    CorrelationErrorModel,
                >(p2));
            },
        }
    } else {
        assert(fp[0] == frames[0]);
        assert(fp.skip(1) =~= frames.skip(1).push(f));
        let step = spec_correlate_pdus(
            pairs,
            frames[0].pdus,
            frames[0].from_master,
            sat_sub(frames[0].time, start),
            frames[0].wireshark_packet_number,
            scenario,
            recent,
        );
        match step {
            Err(e) => {
                assert(spec_correlate_frames(pairs, fp, start, scenario, recent) == Err::<
                    Seq<PduStatModel>,
                    _,
                >(e));
                assert(spec_correlate_frames(pairs, frames, start, scenario, recent) == Err::<
                    Seq<PduStatModel>,
                    _,
                >(e));
            },
            Ok(p2) => {
                lemma_correlate_frames_push(p2, frames.skip(1), f, start, scenario, recent);
                assert(spec_correlate_frames(pairs, fp, start, scenario, recent)
                    == spec_correlate_frames(p2, frames.skip(1).push(f), start, scenario, recent));
                assert(spec_correlate_frames(pairs, frames, start, scenario, recent)
                    == spec_correlate_frames(p2, frames.skip(1), start, scenario, recent));
            },
        }
    }
}

/// A device-originated sub-message on any capture packet after the first,
/// with no still-open request carrying its tag, aborts the whole analysis
/// with a correlation error naming the packet, the tag, and the most recent
/// still-open tags.
pub proof fn lemma_unmatched_response_is_error(
    frames: Seq<FrameModel>,
    f: FrameModel,
    scenario: Seq<char>,
    recent: usize,
)
    requires
        spec_correlate(frames, scenario, recent) is Ok,
        !f.from_master,
        f.wireshark_packet_number > 1,
        f.pdus.len() > 0,
        spec_last_open_with_tag(
            spec_correlate(frames, scenario, recent)->Ok_0,
            f.pdus[0].index,
        ) is None,
    ensures
        spec_correlate(frames.push(f), scenario, recent) matches Err(e) && {
            let pairs = spec_correlate(frames, scenario, recent)->Ok_0;
            &&& e.packet_number == f.wireshark_packet_number
            &&& e.sequence_tag == f.pdus[0].index
            &&& e.recent_open_tags == spec_open_tags_newest_first(pairs, recent as int)
        },
{
    let pairs = spec_correlate(frames, scenario, recent)->Ok_0;
    let fp = frames.push(f);
    if frames.len() == 0 {
        assert(pairs =~= Seq::<PduStatModel>::empty());
        assert(fp[0] == f);
        let rel = sat_sub(f.time, f.time);
        assert(spec_correlate_sub(pairs, f.pdus[0], false, rel, f.wireshark_packet_number,
            scenario, recent) matches Err(e) && e.packet_number == f.wireshark_packet_number
            && e.sequence_tag == f.pdus[0].index && e.recent_open_tags
            == spec_open_tags_newest_first(pairs, recent as int));
    } else {
        let start = frames[0].time;
        assert(fp[0] == frames[0]);
        lemma_correlate_frames_push(
            Seq::<PduStatModel>::empty(),
            frames,
            f,
            start,
            scenario,
            recent,
        );
        let rel = sat_sub(f.time, start);
        assert(spec_correlate_sub(pairs, f.pdus[0], false, rel, f.wireshark_packet_number,
            scenario, recent) matches Err(e) && e.packet_number == f.wireshark_packet_number
            && e.sequence_tag == f.pdus[0].index && e.recent_open_tags
            == spec_open_tags_newest_first(pairs, recent as int));
    }
}

} // verus!
