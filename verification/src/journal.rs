//! The journal's file layout: one file per write session under
//! `<site>/journal/`, named `NNNNNN-<session>.jsonl` and replayed in
//! file-name order. Existing files are never modified.

use vstd::prelude::*;
use vstd::string::StrSliceExecFns;

use crate::text::{
    compare_text, decimal, lemma_text_lt_transitive, push_char,
    push_decimal_padded, push_text, text_le, text_lt, zero_padded, TextOrder,
};

verus! {

/// The name of the journal file of the `seq`-th session: the sequence
/// number zero-padded to six digits, a dash, the session name, and the
/// `.jsonl` extension.
pub open spec fn session_file(seq: nat, session: Seq<char>) -> Seq<char> {
    zero_padded(decimal(seq), 6) + seq!['-'] + session + ".jsonl"@
}

/// A file name whose extension is `jsonl` (a bare `.jsonl` is a hidden
/// file with no extension).
pub open spec fn is_journal_name(name: Seq<char>) -> bool {
    name.len() > 6 && name.subrange(name.len() - 6, name.len() as int) == ".jsonl"@
}

/// The file name of the `seq`-th session named `session`.
pub fn session_file_name(seq: usize, session: &str) -> (name: String)
    ensures
        name@ == session_file(seq as nat, session@),
{
    let mut name = String::new();
    push_decimal_padded(&mut name, seq as u64, 6);
    push_char(&mut name, '-');
    push_text(&mut name, session);
    push_text(&mut name, ".jsonl");
    assert(name@ =~= session_file(seq as nat, session@));
    name
}

/// Whether a directory entry is a journal session file.
pub fn is_journal_file(name: &str) -> (r: bool)
    ensures
        r == is_journal_name(name@),
{
    let n = name.unicode_len();
    if n <= 6 {
        return false;
    }
    let tail = name.substring_char(n - 6, n);
    compare_text(tail, ".jsonl") == TextOrder::Equal
}

/// `s` is in non-decreasing text order.
pub open spec fn texts_sorted(s: Seq<String>) -> bool {
    forall|i: int, j: int| 0 <= i < j < s.len() ==> text_le(#[trigger] s[i]@, #[trigger] s[j]@)
}

/// The journal files among the directory entries `names`, in the order
/// they are replayed (file-name order).
pub fn replay_order(names: &Vec<String>) -> (r: Vec<String>)
    ensures
        texts_sorted(r@),
        r@.to_multiset() == names@.filter(|n: String| is_journal_name(n@)).to_multiset(),
{
    let ghost keep = |n: String| is_journal_name(n@);
    let mut r: Vec<String> = Vec::new();
    let mut i: usize = 0;
    assert(names@.take(0).filter(keep) =~= Seq::<String>::empty());
    while i < names.len()
        invariant
            i <= names@.len(),
            texts_sorted(r@),
            keep == (|n: String| is_journal_name(n@)),
            r@.to_multiset() == names@.take(i as int).filter(keep).to_multiset(),
        decreases names@.len() - i,
    {
        let name = &names[i];
        proof {
            assert(names@.take(i + 1) =~= names@.take(i as int).push(names@[i as int]));
            names@.take(i as int).lemma_filter_push(names@[i as int], keep);
        }
        if is_journal_file(name.as_str()) {
            let x = name.clone();
            // the first position whose entry sorts after `x`
            let mut p: usize = 0;
            while p < r.len() && compare_text(r[p].as_str(), x.as_str()) != TextOrder::Greater
                invariant
                    p <= r@.len(),
                    forall|k: int| 0 <= k < p ==> text_le(#[trigger] r@[k]@, x@),
                decreases r@.len() - p,
            {
                p = p + 1;
            }
            let ghost before = r@;
            proof {
                assert forall|k: int| p <= k < before.len() implies text_lt(x@, #[trigger] before[k]@) by {
                    assert(text_lt(x@, before[p as int]@));
                    if k > p {
                        assert(text_le(before[p as int]@, before[k]@));
                        if before[p as int]@ != before[k]@ {
                            lemma_text_lt_transitive(x@, before[p as int]@, before[k]@);
                        }
                    }
                }
                vstd::seq_lib::to_multiset_insert(before, p as int, x);
            }
            r.insert(p, x);
            proof {
                assert forall|a: int, b: int| 0 <= a < b < r@.len() implies text_le(#[trigger] r@[a]@, #[trigger] r@[b]@) by {
                    if b < p {
                        assert(r@[a] == before[a] && r@[b] == before[b]);
                    } else if b == p {
                        assert(r@[a] == before[a]);
                    } else if a < p {
                        assert(r@[a] == before[a] && r@[b] == before[b - 1]);
                        assert(text_le(before[a]@, x@));
                        assert(text_lt(x@, before[b - 1]@));
                        if before[a]@ != x@ {
                            lemma_text_lt_transitive(before[a]@, x@, before[b - 1]@);
                        }
                    } else if a == p {
                        assert(r@[b] == before[b - 1]);
                    } else {
                        assert(r@[a] == before[a - 1] && r@[b] == before[b - 1]);
                    }
                }
                let f = names@.take(i as int).filter(keep);
                vstd::seq_lib::to_multiset_build(f, names@[i as int]);
                assert(keep(names@[i as int]));
                assert(names@.take(i + 1).filter(keep) == f.push(names@[i as int]));
            }
        } else {
            assert(!keep(names@[i as int]));
            assert(names@.take(i + 1).filter(keep) == names@.take(i as int).filter(keep));
        }
        i = i + 1;
    }
    assert(names@.take(i as int) =~= names@);
    r
}

} // verus!
