//! The byte format of membership-change records carried inside conf-change
//! entries: a flat sequence of LEB128 words.  Encoding is exact; decoding is
//! proved to recover whatever was encoded.

use vstd::prelude::*;
use crate::bridge::{varint_of, push_varint, read_varint};
use crate::message::{ConfChange, ConfChangeV, ConfChangeType, ConfState, ConfStateV};

verus! {

/// The LEB128 bytes of a word sequence, in order.
pub open spec fn varints_of(ws: Seq<u64>) -> Seq<u8>
    decreases ws.len(),
{
    if ws.len() == 0 {
        Seq::<u8>::empty()
    } else {
        varint_of(ws[0] as nat) + varints_of(ws.skip(1))
    }
}

/// The numeric code of a record kind.
pub open spec fn spec_type_code(t: ConfChangeType) -> u64 {
    match t {
        ConfChangeType::AddNode => 0,
        ConfChangeType::RemoveNode => 1,
        ConfChangeType::AddLearnerNode => 2,
        ConfChangeType::BeginMembershipChange => 3,
        ConfChangeType::FinalizeMembershipChange => 4,
    }
}

/// The word sequence of a record: kind, peer, start index, then the target
/// configuration when one is carried.
pub open spec fn cc_words(v: ConfChangeV) -> Seq<u64> {
    seq![spec_type_code(v.change_type), v.node_id, v.start_index] + match v.configuration {
        Some(c) => seq![1u64, c.nodes.len() as u64] + c.nodes + seq![c.learners.len() as u64]
            + c.learners,
        None => seq![0u64],
    }
}

/// The encoded bytes of a record.
pub open spec fn spec_encoding(v: ConfChangeV) -> Seq<u8> {
    varints_of(cc_words(v))
}

/// A word's encoding is never empty.
pub proof fn lemma_varint_len(n: nat)
    ensures
        varint_of(n).len() >= 1,
    decreases n,
{
}

/// The encoding of a single word.
pub proof fn lemma_varints_one(w: u64)
    ensures
        varints_of(seq![w]) == varint_of(w as nat),
{
    assert(seq![w].skip(1) =~= Seq::<u64>::empty());
    assert(varints_of(seq![w].skip(1)) == Seq::<u8>::empty());
    assert(varint_of(w as nat) + Seq::<u8>::empty() =~= varint_of(w as nat));
}

/// Encoding distributes over concatenation of word sequences.
pub proof fn lemma_varints_add(a: Seq<u64>, b: Seq<u64>)
    ensures
        varints_of(a + b) == varints_of(a) + varints_of(b),
    decreases a.len(),
{
    if a.len() == 0 {
        assert(a + b =~= b);
        assert(varints_of(a) + varints_of(b) =~= varints_of(b));
    } else {
        assert((a + b).skip(1) =~= a.skip(1) + b);
        lemma_varints_add(a.skip(1), b);
        assert(varints_of(a + b) =~= varints_of(a) + varints_of(b));
    }
}

/// Appends the words of `vals` to `out`.
fn push_words(vals: &Vec<u64>, out: &mut Vec<u8>)
    ensures
        final(out)@ == old(out)@ + varints_of(vals@),
{
    let mut i: usize = 0;
    while i < vals.len()
        invariant
            i <= vals@.len(),
            out@ == old(out)@ + varints_of(vals@.take(i as int)),
        decreases vals@.len() - i,
    {
        push_varint(vals[i], out);
        proof {
            lemma_varints_add(vals@.take(i as int), seq![vals@[i as int]]);
            lemma_varints_one(vals@[i as int]);
            assert(vals@.take(i as int) + seq![vals@[i as int]] =~= vals@.take(i as int + 1));
            assert(out@ =~= old(out)@ + varints_of(vals@.take(i as int + 1)));
        }
        i = i + 1;
    }
    proof {
        assert(vals@.take(vals@.len() as int) =~= vals@);
    }
}

/// Serializes a membership-change record.
pub fn encode_conf_change(cc: &ConfChange) -> (r: Vec<u8>)
    ensures
        r@ == spec_encoding(cc@),
{
    let code: u64 = match cc.change_type {
        ConfChangeType::AddNode => 0,
        ConfChangeType::RemoveNode => 1,
        ConfChangeType::AddLearnerNode => 2,
        ConfChangeType::BeginMembershipChange => 3,
        ConfChangeType::FinalizeMembershipChange => 4,
    };
    let mut words: Vec<u64> = Vec::new();
    words.push(code);
    words.push(cc.node_id);
    words.push(cc.start_index);
    match &cc.configuration {
        Some(c) => {
            words.push(1);
            words.push(c.nodes.len() as u64);
            let mut i: usize = 0;
            let ghost head = words@;
            while i < c.nodes.len()
                invariant
                    i <= c.nodes@.len(),
                    words@ == head + c.nodes@.take(i as int),
                decreases c.nodes@.len() - i,
            {
                words.push(c.nodes[i]);
                proof {
                    assert(words@ =~= head + c.nodes@.take(i as int + 1));
                }
                i = i + 1;
            }
            proof {
                assert(c.nodes@.take(c.nodes@.len() as int) =~= c.nodes@);
            }
            words.push(c.learners.len() as u64);
            let mut j: usize = 0;
            let ghost head2 = words@;
            while j < c.learners.len()
                invariant
                    j <= c.learners@.len(),
                    words@ == head2 + c.learners@.take(j as int),
                decreases c.learners@.len() - j,
            {
                words.push(c.learners[j]);
                proof {
                    assert(words@ =~= head2 + c.learners@.take(j as int + 1));
                }
                j = j + 1;
            }
            proof {
                assert(c.learners@.take(c.learners@.len() as int) =~= c.learners@);
                assert(words@ =~= cc_words(cc@));
            }
        },
        None => {
            words.push(0);
            proof {
                assert(words@ =~= cc_words(cc@));
            }
        },
    }
    let mut out: Vec<u8> = Vec::new();
    push_words(&words, &mut out);
    out
}

/// Splits `data` into LEB128 words.  When `data` is the encoding of some word
/// sequence, that sequence is returned; a byte stream that no word sequence
/// encodes to is refused.
fn read_all_varints(data: &Vec<u8>) -> (r: Option<Vec<u64>>)
    ensures
        match r {
            Some(ws) => forall|o: Seq<u64>| data@ == varints_of(o) ==> o == ws@,
            None => forall|o: Seq<u64>| data@ != varints_of(o),
        },
        (exists|o: Seq<u64>| data@ == varints_of(o)) ==> r is Some,
{
    let mut words: Vec<u64> = Vec::new();
    let mut pos: usize = 0;
    while pos < data.len()
        invariant
            pos <= data@.len(),
            forall|o: Seq<u64>|
                data@ == varints_of(words@ + o) ==> data@.skip(pos as int) == varints_of(o),
            forall|o: Seq<u64>| data@ == #[trigger] varints_of(o) ==> words@.is_prefix_of(o),
        decreases data@.len() - pos,
    {
        let ghost pre_words = words@;
        let ghost pre_pos = pos as int;
        match read_varint(data, pos) {
            Some((w, p)) => {
                words.push(w);
                pos = p;
                proof {
                    assert forall|o: Seq<u64>|
                        data@ == varints_of(words@ + o) implies data@.skip(pos as int)
                        == varints_of(o) by {
                        assert(words@ + o =~= pre_words + (seq![w] + o));
                        assert(data@.skip(pre_pos) == varints_of(seq![w] + o));
                        assert((seq![w] + o).skip(1) =~= o);
                        assert(varints_of(seq![w] + o) == varint_of(w as nat) + varints_of(o));
                        assert(varint_of(w as nat).is_prefix_of(data@.skip(pre_pos)));
                        assert(pos as int == pre_pos + varint_of(w as nat).len());
                        assert(data@.skip(pos as int) =~= data@.skip(pre_pos).skip(
                            varint_of(w as nat).len() as int,
                        ));
                        assert(data@.skip(pos as int) =~= varints_of(o));
                    }
                    assert forall|o: Seq<u64>|
                        data@ == #[trigger] varints_of(o) implies words@.is_prefix_of(o) by {
                        assert(pre_words.is_prefix_of(o));
                        assert(o =~= pre_words + o.skip(pre_words.len() as int));
                        let tail = o.skip(pre_words.len() as int);
                        assert(data@.skip(pre_pos) == varints_of(tail));
                        if tail.len() == 0 {
                            assert(data@.skip(pre_pos).len() == 0);
                            assert(pre_pos == data@.len());
                            assert(false);
                        }
                        assert(varints_of(tail) == varint_of(tail[0] as nat) + varints_of(
                            tail.skip(1),
                        ));
                        assert(varint_of(tail[0] as nat).is_prefix_of(data@.skip(pre_pos)));
                        assert(w == tail[0]);
                        assert(words@ =~= pre_words.push(tail[0]));
                        assert(words@.is_prefix_of(o));
                    }
                }
            },
            None => {
                proof {
                    assert forall|o: Seq<u64>| data@ != varints_of(o) by {
                        if data@ == varints_of(o) {
                            assert(words@.is_prefix_of(o));
                            assert(o =~= words@ + o.skip(words@.len() as int));
                            let tail = o.skip(words@.len() as int);
                            assert(data@.skip(pos as int) == varints_of(tail));
                            if tail.len() == 0 {
                                assert(pos as int == data@.len());
                                assert(false);
                            } else {
                                assert(varints_of(tail) == varint_of(tail[0] as nat) + varints_of(
                                    tail.skip(1),
                                ));
                                assert(varint_of(tail[0] as nat).is_prefix_of(
                                    data@.skip(pos as int),
                                ));
                                assert(false);
                            }
                        }
                    }
                }
                return None;
            },
        }
    }
    proof {
        assert forall|o: Seq<u64>| data@ == varints_of(o) implies o == words@ by {
            assert(words@.is_prefix_of(o));
            assert(o =~= words@ + o.skip(words@.len() as int));
            let tail = o.skip(words@.len() as int);
            assert(data@.skip(pos as int) == varints_of(tail));
            assert(data@.skip(pos as int).len() == 0);
            if tail.len() > 0 {
                lemma_varint_len(tail[0] as nat);
                assert(varints_of(tail) == varint_of(tail[0] as nat) + varints_of(tail.skip(1)));
                assert(false);
            }
            assert(o =~= words@);
        }
    }
    Some(words)
}

/// The shape of every record's word sequence.
proof fn lemma_cc_words_shape(v: ConfChangeV)
    ensures
        cc_words(v).len() >= 4,
        cc_words(v)[0] == spec_type_code(v.change_type),
        cc_words(v)[1] == v.node_id,
        cc_words(v)[2] == v.start_index,
        match v.configuration {
            Some(c) => {
                &&& cc_words(v)[3] == 1u64
                &&& cc_words(v).len() == 6 + c.nodes.len() + c.learners.len()
                &&& cc_words(v)[4] == c.nodes.len() as u64
                &&& cc_words(v)[5 + c.nodes.len() as int] == c.learners.len() as u64
                &&& forall|k: int| 0 <= k < c.nodes.len() ==> cc_words(v)[5 + k] == c.nodes[k]
                &&& forall|k: int|
                    0 <= k < c.learners.len() ==> cc_words(v)[6 + c.nodes.len() + k]
                        == c.learners[k]
            },
            None => cc_words(v)[3] == 0u64 && cc_words(v).len() == 4,
        },
{
    match v.configuration {
        Some(c) => {
            let w = cc_words(v);
            assert(w =~= seq![spec_type_code(v.change_type), v.node_id, v.start_index] + (seq![
                1u64,
                c.nodes.len() as u64,
            ] + c.nodes + seq![c.learners.len() as u64] + c.learners));
        },
        None => {
            assert(cc_words(v) =~= seq![
                spec_type_code(v.change_type),
                v.node_id,
                v.start_index,
                0u64,
            ]);
        },
    }
}

/// Rebuilds a record from its word sequence; refused when the words do not
/// have the shape `cc_words` produces.
#[verifier::rlimit(100)]
fn words_to_conf_change(ws: &Vec<u64>) -> (r: Option<ConfChange>)
    ensures
        match r {
            Some(cc) => ws@ == cc_words(cc@),
            None => forall|v: ConfChangeV| ws@ != cc_words(v),
        },
{
    proof {
        assert(ws@.len() == ws.len());
    }
    if ws.len() < 4 {
        proof {
            assert forall|v: ConfChangeV| ws@ != cc_words(v) by {
                lemma_cc_words_shape(v);
            }
        }
        return None;
    }
    let change_type = match ws[0] {
        0u64 => ConfChangeType::AddNode,
        1u64 => ConfChangeType::RemoveNode,
        2u64 => ConfChangeType::AddLearnerNode,
        3u64 => ConfChangeType::BeginMembershipChange,
        4u64 => ConfChangeType::FinalizeMembershipChange,
        _ => {
            proof {
                assert forall|v: ConfChangeV| ws@ != cc_words(v) by {
                    lemma_cc_words_shape(v);
                }
            }
            return None;
        },
    };
    let node_id = ws[1];
    let start_index = ws[2];
    if ws[3] == 0 {
        if ws.len() != 4 {
            proof {
                assert forall|v: ConfChangeV| ws@ != cc_words(v) by {
                    lemma_cc_words_shape(v);
                }
            }
            return None;
        }
        let cc = ConfChange { change_type, node_id, start_index, configuration: None };
        proof {
            lemma_cc_words_shape(cc@);
            assert(ws@ =~= cc_words(cc@));
        }
        return Some(cc);
    }
    if ws[3] != 1 {
        proof {
            assert forall|v: ConfChangeV| ws@ != cc_words(v) by {
                lemma_cc_words_shape(v);
            }
        }
        return None;
    }
    // ws = [kind, peer, start, 1, n, voters.., m, learners..]
    if ws.len() < 6 {
        proof {
            assert forall|v: ConfChangeV| ws@ != cc_words(v) by {
                lemma_cc_words_shape(v);
            }
        }
        return None;
    }
    let n = ws[4];
    if (n as usize) as u64 != n || n as usize > ws.len() || ws.len() - 6 < n as usize {
        proof {
            assert forall|v: ConfChangeV| ws@ != cc_words(v) by {
                lemma_cc_words_shape(v);
                if ws@ == cc_words(v) {
                    match v.configuration {
                        Some(c) => {
                            assert(c.nodes.len() <= ws@.len());
                            assert(c.nodes.len() as u64 == n);
                            assert(ws@.len() >= 6 + c.nodes.len());
                        },
                        None => {},
                    }
                }
            }
        }
        return None;
    }
    let n_us = n as usize;
    let mut nodes: Vec<u64> = Vec::new();
    let mut i: usize = 0;
    while i < n_us
        invariant
            n_us == n,
            ws@.len() == ws.len(),
            ws@.len() >= 6 + n_us,
            i <= n_us,
            nodes@ == ws@.subrange(5, 5 + i),
        decreases n_us - i,
    {
        nodes.push(ws[5 + i]);
        proof {
            assert(nodes@ =~= ws@.subrange(5, 5 + i + 1));
        }
        i = i + 1;
    }
    let m = ws[5 + n_us];
    let have = ws.len() - 6 - n_us;
    if m as usize != have || ((m as usize) as u64) != m {
        proof {
            assert forall|v: ConfChangeV| ws@ != cc_words(v) by {
                lemma_cc_words_shape(v);
                if ws@ == cc_words(v) {
                    match v.configuration {
                        Some(c) => {
                            assert(c.nodes.len() <= ws@.len() && c.learners.len() <= ws@.len());
                            assert(c.nodes.len() as u64 == n);
                            assert(c.nodes.len() == n_us);
                            assert(ws@[5 + c.nodes.len() as int] == c.learners.len() as u64);
                            assert(c.learners.len() as u64 == m);
                            assert(c.learners.len() == ws@.len() - 6 - c.nodes.len());
                        },
                        None => {},
                    }
                }
            }
        }
        return None;
    }
    let m_us = m as usize;
    let mut learners: Vec<u64> = Vec::new();
    let mut j: usize = 0;
    while j < m_us
        invariant
            n_us == n,
            m_us == m,
            ws@.len() == ws.len(),
            ws@.len() == 6 + n_us + m_us,
            j <= m_us,
            learners@ == ws@.subrange(6 + n_us, 6 + n_us + j),
        decreases m_us - j,
    {
        learners.push(ws[6 + n_us + j]);
        proof {
            assert(learners@ =~= ws@.subrange(6 + n_us as int, 6 + n_us + j + 1));
        }
        j = j + 1;
    }
    let cc = ConfChange {
        change_type,
        node_id,
        start_index,
        configuration: Some(ConfState { nodes, learners }),
    };
    proof {
        lemma_cc_words_shape(cc@);
        assert(ws@ =~= cc_words(cc@));
    }
    Some(cc)
}

/// Deserializes a membership-change record: whatever `encode_conf_change`
/// produced is recovered exactly.
pub fn decode_conf_change(data: &Vec<u8>) -> (r: Option<ConfChange>)
    ensures
        (exists|v: ConfChangeV| data@ == spec_encoding(v)) ==> r is Some,
        match r {
            Some(cc) => forall|v: ConfChangeV| data@ == spec_encoding(v) ==> cc@ =~~= v,
            None => true,
        },
{
    let words = match read_all_varints(data) {
        Some(ws) => ws,
        None => {
            proof {
                assert forall|v: ConfChangeV| data@ != spec_encoding(v) by {}
            }
            return None;
        },
    };
    match words_to_conf_change(&words) {
        Some(cc) => {
            proof {
                assert forall|v: ConfChangeV| data@ == spec_encoding(v) implies cc@ =~~= v by {
                    assert(cc_words(v) == words@);
                    assert(cc_words(cc@) == cc_words(v));
                    assert(words@.len() == words.len());
                    lemma_cc_words_injective(cc@, v);
                }
            }
            Some(cc)
        },
        None => {
            proof {
                assert forall|v: ConfChangeV| data@ != spec_encoding(v) by {
                    if data@ == spec_encoding(v) {
                        assert(cc_words(v) == words@);
                    }
                }
            }
            None
        },
    }
}

/// Among records whose word sequences fit in memory, the word sequence
/// determines the record.
proof fn lemma_cc_words_injective(a: ConfChangeV, b: ConfChangeV)
    requires
        cc_words(a) == cc_words(b),
        cc_words(a).len() <= u64::MAX,
    ensures
        a =~~= b,
{
    let wa = cc_words(a);
    let wb = cc_words(b);
    lemma_cc_words_shape(a);
    lemma_cc_words_shape(b);
    assert(wa[0] == spec_type_code(a.change_type) && wb[0] == spec_type_code(b.change_type));
    assert(a.change_type == b.change_type);
    assert(wa[1] == a.node_id && wb[1] == b.node_id);
    assert(wa[2] == a.start_index && wb[2] == b.start_index);
    match (a.configuration, b.configuration) {
        (Some(ca), Some(cb)) => {
            assert(wa.len() == 6 + ca.nodes.len() + ca.learners.len());
            assert(wb.len() == 6 + cb.nodes.len() + cb.learners.len());
            assert(ca.nodes.len() < u64::MAX && cb.nodes.len() < u64::MAX);
            assert(wa[4] == ca.nodes.len() as u64 && wb[4] == cb.nodes.len() as u64);
            assert(ca.nodes.len() == cb.nodes.len());
            assert(ca.learners.len() == cb.learners.len());
            assert forall|k: int| 0 <= k < ca.nodes.len() implies ca.nodes[k] == cb.nodes[k] by {
                assert(wa[5 + k] == ca.nodes[k]);
                assert(wb[5 + k] == cb.nodes[k]);
            }
            assert forall|k: int|
                0 <= k < ca.learners.len() implies ca.learners[k] == cb.learners[k] by {
                assert(wa[6 + ca.nodes.len() as int + k] == ca.learners[k]);
                assert(wb[6 + cb.nodes.len() as int + k] == cb.learners[k]);
            }
            assert(ca.nodes =~= cb.nodes);
            assert(ca.learners =~= cb.learners);
        },
        (None, None) => {},
        (Some(ca), None) => {
            assert(wa[3] == 1u64 && wb[3] == 0u64);
        },
        (None, Some(cb)) => {
            assert(wa[3] == 0u64 && wb[3] == 1u64);
        },
    }
}

} // verus!
