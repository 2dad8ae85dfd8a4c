//! The streaming merge engine, modelled over the identifier tags of the
//! records: classify every record by its identifier tag, rewrite the tag with
//! the owning input's positional suffix, keep the record or drop it, and
//! account for it in the pass/other/fail counters.

use vstd::prelude::*;

use crate::rewrite::rewrite_spec;
use crate::rewrite::sanitize_and_replace_cb;
use crate::rewrite::suffix_spec;

verus! {

/// The identifier tag of one record, as the record format yields it: a byte
/// string, a single character, or nothing usable.
pub enum TagValue {
    Str(Vec<u8>),
    Ch(u8),
    Absent,
}

/// The run counters: records whose identifier was a string, records whose
/// identifier was a single character (rewritten but flagged), and records
/// with no usable identifier (dropped).
pub struct Counters {
    pub pass: u64,
    pub other: u64,
    pub fail: u64,
}

/// One record kept in the merged output: which input it came from (0-based),
/// its position in that input's stream, and its rewritten identifier.
pub struct MergedRecord {
    pub input: usize,
    pub index: usize,
    pub cb: Vec<u8>,
}

/// What becomes of one record's identifier under the suffix: the rewritten
/// value for a kept record, nothing for a dropped one.
pub open spec fn record_rewrite(t: TagValue, suffix: Seq<u8>) -> Option<Seq<u8>> {
    match t {
        TagValue::Str(s) => Some(rewrite_spec(s@, suffix)),
        TagValue::Ch(c) => Some(rewrite_spec(seq![c], suffix)),
        TagValue::Absent => None,
    }
}

/// How many records of `recs` carry a string identifier.
pub open spec fn count_pass(recs: Seq<TagValue>) -> nat
    decreases recs.len(),
{
    if recs.len() == 0 {
        0
    } else {
        count_pass(recs.drop_last()) + (if recs.last() is Str {
            1nat
        } else {
            0nat
        })
    }
}

/// How many records of `recs` carry a single-character identifier.
pub open spec fn count_other(recs: Seq<TagValue>) -> nat
    decreases recs.len(),
{
    if recs.len() == 0 {
        0
    } else {
        count_other(recs.drop_last()) + (if recs.last() is Ch {
            1nat
        } else {
            0nat
        })
    }
}

/// How many records of `recs` carry no usable identifier.
pub open spec fn count_fail(recs: Seq<TagValue>) -> nat
    decreases recs.len(),
{
    if recs.len() == 0 {
        0
    } else {
        count_fail(recs.drop_last()) + (if recs.last() is Absent {
            1nat
        } else {
            0nat
        })
    }
}

/// Every record is counted exactly once.
pub proof fn lemma_counts_partition(recs: Seq<TagValue>)
    ensures
        count_pass(recs) + count_other(recs) + count_fail(recs) == recs.len(),
    decreases recs.len(),
{
    if recs.len() > 0 {
        lemma_counts_partition(recs.drop_last());
    }
}

/// The records of one input that reach the output, in stream order: each kept
/// record as (input position, stream index, rewritten identifier).
pub open spec fn kept_records(recs: Seq<TagValue>, input: int) -> Seq<(int, int, Seq<u8>)>
    decreases recs.len(),
{
    if recs.len() == 0 {
        Seq::empty()
    } else {
        let front = kept_records(recs.drop_last(), input);
        match record_rewrite(recs.last(), suffix_spec((input + 1) as nat)) {
            Some(cb) => front + seq![(input, recs.len() - 1, cb)],
            None => front,
        }
    }
}

/// A kept record exists for each counted pass or other record.
pub proof fn lemma_kept_len(recs: Seq<TagValue>, input: int)
    ensures
        kept_records(recs, input).len() == count_pass(recs) + count_other(recs),
    decreases recs.len(),
{
    if recs.len() > 0 {
        lemma_kept_len(recs.drop_last(), input);
    }
}

/// Records read across all inputs.
pub open spec fn total_records(inputs: Seq<Vec<TagValue>>) -> nat
    decreases inputs.len(),
{
    if inputs.len() == 0 {
        0
    } else {
        total_records(inputs.drop_last()) + inputs.last()@.len()
    }
}

/// String-identifier records across all inputs.
pub open spec fn total_pass(inputs: Seq<Vec<TagValue>>) -> nat
    decreases inputs.len(),
{
    if inputs.len() == 0 {
        0
    } else {
        total_pass(inputs.drop_last()) + count_pass(inputs.last()@)
    }
}

/// Single-character-identifier records across all inputs.
pub open spec fn total_other(inputs: Seq<Vec<TagValue>>) -> nat
    decreases inputs.len(),
{
    if inputs.len() == 0 {
        0
    } else {
        total_other(inputs.drop_last()) + count_other(inputs.last()@)
    }
}

/// Identifier-less records across all inputs.
pub open spec fn total_fail(inputs: Seq<Vec<TagValue>>) -> nat
    decreases inputs.len(),
{
    if inputs.len() == 0 {
        0
    } else {
        total_fail(inputs.drop_last()) + count_fail(inputs.last()@)
    }
}

/// Every record read is counted under exactly one of the three counters.
pub proof fn lemma_totals_partition(inputs: Seq<Vec<TagValue>>)
    ensures
        total_pass(inputs) + total_other(inputs) + total_fail(inputs) == total_records(inputs),
    decreases inputs.len(),
{
    if inputs.len() > 0 {
        lemma_totals_partition(inputs.drop_last());
        lemma_counts_partition(inputs.last()@);
    }
}

/// The whole merged output, in input order: the concatenation of what each
/// input contributes.
pub open spec fn merged_model(inputs: Seq<Vec<TagValue>>) -> Seq<(int, int, Seq<u8>)>
    decreases inputs.len(),
{
    if inputs.len() == 0 {
        Seq::empty()
    } else {
        merged_model(inputs.drop_last()) + kept_records(inputs.last()@, inputs.len() - 1)
    }
}

/// The model of an output record list.
pub open spec fn output_model(out: Seq<MergedRecord>) -> Seq<(int, int, Seq<u8>)> {
    out.map_values(|m: MergedRecord| (m.input as int, m.index as int, m.cb@))
}

/// Extending a prefix of the inputs by one input extends every total by that
/// input's contribution.
proof fn lemma_totals_take_step(inputs: Seq<Vec<TagValue>>, i: int)
    requires
        0 <= i < inputs.len(),
    ensures
        total_records(inputs.take(i + 1)) == total_records(inputs.take(i)) + inputs[i]@.len(),
        total_pass(inputs.take(i + 1)) == total_pass(inputs.take(i)) + count_pass(inputs[i]@),
        total_other(inputs.take(i + 1)) == total_other(inputs.take(i)) + count_other(inputs[i]@),
        total_fail(inputs.take(i + 1)) == total_fail(inputs.take(i)) + count_fail(inputs[i]@),
        merged_model(inputs.take(i + 1)) == merged_model(inputs.take(i)) + kept_records(
            inputs[i]@,
            i,
        ),
{
    assert(inputs.take(i + 1).drop_last() =~= inputs.take(i));
    assert(inputs.take(i + 1).last() == inputs[i]);
}

/// A prefix of the inputs never holds more records than the whole.
proof fn lemma_total_records_prefix(inputs: Seq<Vec<TagValue>>, i: int)
    requires
        0 <= i <= inputs.len(),
    ensures
        total_records(inputs.take(i)) <= total_records(inputs),
    decreases inputs.len() - i,
{
    if i == inputs.len() {
        assert(inputs.take(i) =~= inputs);
    } else {
        lemma_totals_take_step(inputs, i);
        lemma_total_records_prefix(inputs, i + 1);
    }
}

/// Classify one record by its identifier tag, rewrite the identifier with the
/// owning input's suffix, and account for the record: a string identifier
/// passes, a single character passes with a caveat, anything else drops the
/// record.
pub fn process_record(tag: &TagValue, suffix: &Vec<u8>, counters: &mut Counters) -> (r: Option<
    Vec<u8>,
>)
    requires
        old(counters).pass < u64::MAX,
        old(counters).other < u64::MAX,
        old(counters).fail < u64::MAX,
    ensures
        match *tag {
            TagValue::Str(s) => {
                &&& r matches Some(v) && v@ == rewrite_spec(s@, suffix@)
                &&& final(counters).pass == old(counters).pass + 1
                &&& final(counters).other == old(counters).other
                &&& final(counters).fail == old(counters).fail
            },
            TagValue::Ch(c) => {
                &&& r matches Some(v) && v@ == rewrite_spec(seq![c], suffix@)
                &&& final(counters).pass == old(counters).pass
                &&& final(counters).other == old(counters).other + 1
                &&& final(counters).fail == old(counters).fail
            },
            TagValue::Absent => {
                &&& r is None
                &&& final(counters).pass == old(counters).pass
                &&& final(counters).other == old(counters).other
                &&& final(counters).fail == old(counters).fail + 1
            },
        },
        (r is Some) == record_rewrite(*tag, suffix@) is Some,
        r matches Some(v) ==> record_rewrite(*tag, suffix@) == Some(v@),
{
    match tag {
        TagValue::Str(s) => {
            counters.pass = counters.pass + 1;
            Some(sanitize_and_replace_cb(s, suffix))
        },
        TagValue::Ch(c) => {
            counters.other = counters.other + 1;
            let mut single: Vec<u8> = Vec::new();
            single.push(*c);
            proof {
                assert(single@ =~= seq![*c]);
            }
            Some(sanitize_and_replace_cb(&single, suffix))
        },
        TagValue::Absent => {
            counters.fail = counters.fail + 1;
            None
        },
    }
}

/// Merge all inputs: process every record of every input, in input order and
/// stream order, and return the kept records beside the final counters.
///
/// The counters partition the records read, the output holds exactly the
/// pass and other records, and its order is the concatenation of the inputs'
/// own orders.
pub fn merge_records(inputs: &Vec<Vec<TagValue>>) -> (r: (Vec<MergedRecord>, Counters))
    requires
        total_records(inputs@) <= u64::MAX,
    ensures
        r.1.pass == total_pass(inputs@),
        r.1.other == total_other(inputs@),
        r.1.fail == total_fail(inputs@),
        r.1.pass + r.1.other + r.1.fail == total_records(inputs@),
        r.0@.len() == r.1.pass + r.1.other,
        output_model(r.0@) == merged_model(inputs@),
{
    let mut out: Vec<MergedRecord> = Vec::new();
    let mut counters = Counters { pass: 0, other: 0, fail: 0 };
    let mut i: usize = 0;
    proof {
        assert(inputs@.take(0) =~= Seq::<Vec<TagValue>>::empty());
        assert(output_model(out@) =~= merged_model(inputs@.take(0)));
    }
    while i < inputs.len()
        invariant
            i <= inputs@.len(),
            total_records(inputs@) <= u64::MAX,
            counters.pass == total_pass(inputs@.take(i as int)),
            counters.other == total_other(inputs@.take(i as int)),
            counters.fail == total_fail(inputs@.take(i as int)),
            output_model(out@) == merged_model(inputs@.take(i as int)),
        decreases inputs@.len() - i,
    {
        let suffix = crate::rewrite::make_suffix(i + 1);
        let ghost pre_pass = counters.pass;
        let ghost pre_other = counters.other;
        let ghost pre_fail = counters.fail;
        let ghost pre_out = out@;
        let mut k: usize = 0;
        proof {
            assert(inputs@[i as int]@.take(0) =~= Seq::<TagValue>::empty());
            assert(out@ == pre_out);
        }
        while k < inputs[i].len()
            invariant
                i < inputs@.len(),
                k <= inputs@[i as int]@.len(),
                total_records(inputs@) <= u64::MAX,
                suffix@ == suffix_spec((i + 1) as nat),
                pre_pass == total_pass(inputs@.take(i as int)),
                pre_other == total_other(inputs@.take(i as int)),
                pre_fail == total_fail(inputs@.take(i as int)),
                output_model(pre_out) == merged_model(inputs@.take(i as int)),
                counters.pass == pre_pass + count_pass(inputs@[i as int]@.take(k as int)),
                counters.other == pre_other + count_other(inputs@[i as int]@.take(k as int)),
                counters.fail == pre_fail + count_fail(inputs@[i as int]@.take(k as int)),
                output_model(out@) == output_model(pre_out) + kept_records(
                    inputs@[i as int]@.take(k as int),
                    i as int,
                ),
            decreases inputs@[i as int]@.len() - k,
        {
            proof {
                let recs = inputs@[i as int]@;
                lemma_counts_partition(recs.take(k as int));
                lemma_totals_partition(inputs@.take(i as int));
                lemma_totals_take_step(inputs@, i as int);
                lemma_total_records_prefix(inputs@, i as int + 1);
                assert(counters.pass + counters.other + counters.fail == total_records(
                    inputs@.take(i as int),
                ) + k);
                assert(total_records(inputs@.take(i as int)) + recs.len() <= total_records(
                    inputs@,
                ));
            }
            let tag = &inputs[i][k];
            let r = process_record(tag, &suffix, &mut counters);
            proof {
                let recs = inputs@[i as int]@;
                assert(recs.take(k + 1).drop_last() =~= recs.take(k as int));
                assert(recs.take(k + 1).last() == recs[k as int]);
            }
            match r {
                Some(cb) => {
                    let ghost out0 = out@;
                    out.push(MergedRecord { input: i, index: k, cb });
                    proof {
                        let recs = inputs@[i as int]@;
                        assert(output_model(out@) =~= output_model(out0) + seq![
                            (i as int, k as int, out@.last().cb@),
                        ]);
                        assert(output_model(out@) =~= output_model(pre_out) + kept_records(
                            recs.take(k + 1),
                            i as int,
                        ));
                    }
                },
                None => {
                    proof {
                        let recs = inputs@[i as int]@;
                        assert(output_model(out@) =~= output_model(pre_out) + kept_records(
                            recs.take(k + 1),
                            i as int,
                        ));
                    }
                },
            }
            k = k + 1;
        }
        proof {
            let recs = inputs@[i as int]@;
            assert(recs.take(recs.len() as int) =~= recs);
            lemma_totals_take_step(inputs@, i as int);
        }
        i = i + 1;
    }
    proof {
        assert(inputs@.take(inputs@.len() as int) =~= inputs@);
        lemma_totals_partition(inputs@);
        lemma_kept_len_all(inputs@);
    }
    (out, counters)
}

/// The output holds exactly the pass and other records.
proof fn lemma_kept_len_all(inputs: Seq<Vec<TagValue>>)
    ensures
        merged_model(inputs).len() == total_pass(inputs) + total_other(inputs),
    decreases inputs.len(),
{
    if inputs.len() > 0 {
        lemma_kept_len_all(inputs.drop_last());
        lemma_kept_len(inputs.last()@, inputs.len() - 1);
    }
}

/// An output model stands in merge order: records from an earlier input
/// precede records from a later one, and records of one input keep their
/// stream order.
pub open spec fn model_ordered(m: Seq<(int, int, Seq<u8>)>) -> bool {
    forall|p: int, q: int|
        0 <= p < q < m.len() ==> ((#[trigger] m[p]).0 < (#[trigger] m[q]).0 || (m[p].0 == m[q].0
            && m[p].1 < m[q].1))
}

proof fn lemma_kept_fields(recs: Seq<TagValue>, input: int)
    ensures
        forall|p: int|
            0 <= p < kept_records(recs, input).len() ==> ((#[trigger] kept_records(recs, input)[p]).0
                == input && 0 <= kept_records(recs, input)[p].1 < recs.len()),
        forall|p: int, q: int|
            0 <= p < q < kept_records(recs, input).len() ==> (#[trigger] kept_records(
                recs,
                input,
            )[p]).1 < (#[trigger] kept_records(recs, input)[q]).1,
    decreases recs.len(),
{
    if recs.len() > 0 {
        lemma_kept_fields(recs.drop_last(), input);
        let front = kept_records(recs.drop_last(), input);
        let whole = kept_records(recs, input);
        match record_rewrite(recs.last(), suffix_spec((input + 1) as nat)) {
            Some(cb) => {
                assert(whole == front + seq![(input, recs.len() - 1, cb)]);
                assert forall|p: int| 0 <= p < whole.len() implies ((#[trigger] whole[p]).0
                    == input && 0 <= whole[p].1 < recs.len()) by {
                    if p < front.len() {
                        assert(whole[p] == front[p]);
                    } else {
                        assert(whole[p] == (input, recs.len() - 1, cb));
                    }
                }
                assert forall|p: int, q: int| 0 <= p < q < whole.len() implies (
                #[trigger] whole[p]).1 < (#[trigger] whole[q]).1 by {
                    if q < front.len() {
                        assert(whole[p] == front[p] && whole[q] == front[q]);
                    } else {
                        assert(whole[q] == (input, recs.len() - 1, cb));
                        assert(whole[p] == front[p]);
                        assert(front[p].1 < recs.drop_last().len());
                    }
                }
            },
            None => {
                assert(whole == front);
            },
        }
    }
}

proof fn lemma_merged_fields(inputs: Seq<Vec<TagValue>>)
    ensures
        forall|p: int|
            0 <= p < merged_model(inputs).len() ==> 0 <= (#[trigger] merged_model(inputs)[p]).0
                < inputs.len(),
        model_ordered(merged_model(inputs)),
    decreases inputs.len(),
{
    if inputs.len() > 0 {
        lemma_merged_fields(inputs.drop_last());
        lemma_kept_fields(inputs.last()@, inputs.len() - 1);
    }
}

/// The output order law: in the merged output, every record from the input
/// at one position precedes every record from inputs at later positions, and
/// records of one input keep their relative stream order.
pub proof fn lemma_output_order(inputs: Seq<Vec<TagValue>>)
    ensures
        model_ordered(merged_model(inputs)),
{
    lemma_merged_fields(inputs);
}

} // verus!
