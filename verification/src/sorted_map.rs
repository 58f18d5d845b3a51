use vstd::prelude::*;

use crate::text::{lemma_seq_lt_irreflexive, lemma_seq_lt_total, lemma_seq_lt_transitive, seq_lt};

verus! {

/// `s` with `w` stored under `k`: an entry for `k` is replaced in place; a
/// new key goes before the first greater one (a key-ordered map's insert).
pub open spec fn sorted_put<W>(s: Seq<(Seq<char>, W)>, k: Seq<char>, w: W) -> Seq<(Seq<char>, W)>
    decreases s.len(),
{
    if s.len() == 0 {
        seq![(k, w)]
    } else if s[0].0 == k {
        seq![(k, w)] + s.drop_first()
    } else if seq_lt(k, s[0].0) {
        seq![(k, w)] + s
    } else {
        seq![s[0]] + sorted_put(s.drop_first(), k, w)
    }
}

/// The keys of `s` strictly ascend.
pub open spec fn keys_ascending<W>(s: Seq<(Seq<char>, W)>) -> bool {
    forall|i: int, j: int| 0 <= i < j < s.len() ==> seq_lt(#[trigger] s[i].0, #[trigger] s[j].0)
}

/// Where `k` lands, found by skipping the keys below it.
pub proof fn lemma_sorted_put_at<W>(s: Seq<(Seq<char>, W)>, k: Seq<char>, w: W, p: int)
    requires
        0 <= p <= s.len(),
        forall|i: int| 0 <= i < p ==> seq_lt(#[trigger] s[i].0, k),
        p < s.len() ==> !seq_lt(s[p].0, k),
    ensures
        sorted_put(s, k, w) == if p < s.len() && s[p].0 == k {
            s.update(p, (k, w))
        } else {
            s.insert(p, (k, w))
        },
    decreases s.len(),
{
    if s.len() == 0 {
        assert(sorted_put(s, k, w) =~= s.insert(p, (k, w)));
    } else if p == 0 {
        if s[0].0 == k {
            assert(sorted_put(s, k, w) =~= s.update(0, (k, w)));
        } else {
            lemma_seq_lt_total(s[0].0, k);
            assert(sorted_put(s, k, w) =~= s.insert(0, (k, w)));
        }
    } else {
        let t = s.drop_first();
        assert(seq_lt(s[0].0, k));
        if s[0].0 == k {
            lemma_seq_lt_irreflexive(k);
        }
        if seq_lt(k, s[0].0) {
            lemma_seq_lt_transitive(k, s[0].0, k);
            lemma_seq_lt_irreflexive(k);
        }
        assert forall|i: int| 0 <= i < p - 1 implies seq_lt(#[trigger] t[i].0, k) by {
            assert(t[i] == s[i + 1]);
        }
        if p < s.len() {
            assert(t[p - 1] == s[p]);
        }
        lemma_sorted_put_at(t, k, w, p - 1);
        if p < s.len() && s[p].0 == k {
            assert(sorted_put(s, k, w) =~= s.update(p, (k, w)));
        } else {
            assert(sorted_put(s, k, w) =~= s.insert(p, (k, w)));
        }
    }
}

/// Storing under a key keeps the keys ascending.
pub proof fn lemma_sorted_put_ascending<W>(s: Seq<(Seq<char>, W)>, k: Seq<char>, w: W)
    requires
        keys_ascending(s),
    ensures
        keys_ascending(sorted_put(s, k, w)),
    decreases s.len(),
{
    if s.len() > 0 && s[0].0 != k && !seq_lt(k, s[0].0) {
        let t = s.drop_first();
        assert forall|i: int, j: int| 0 <= i < j < t.len() implies seq_lt(
            #[trigger] t[i].0,
            #[trigger] t[j].0,
        ) by {
            assert(t[i] == s[i + 1] && t[j] == s[j + 1]);
        }
        lemma_sorted_put_ascending(t, k, w);
        lemma_seq_lt_total(s[0].0, k);
        let r = sorted_put(s, k, w);
        let rt = sorted_put(t, k, w);
        assert forall|x: int| 0 <= x < rt.len() implies seq_lt(s[0].0, #[trigger] rt[x].0) by {
            lemma_sorted_put_member(t, k, w, x);
            if rt[x].0 != k {
                let y = choose|y: int| 0 <= y < t.len() && t[y].0 == rt[x].0;
                assert(t[y] == s[y + 1]);
            }
        }
        assert forall|i: int, j: int| 0 <= i < j < r.len() implies seq_lt(
            #[trigger] r[i].0,
            #[trigger] r[j].0,
        ) by {
            if i == 0 {
                assert(r[j] == rt[j - 1]);
            } else {
                assert(r[i] == rt[i - 1] && r[j] == rt[j - 1]);
            }
        }
    } else if s.len() > 0 && s[0].0 != k {
        let r = sorted_put(s, k, w);
        assert forall|i: int, j: int| 0 <= i < j < r.len() implies seq_lt(
            #[trigger] r[i].0,
            #[trigger] r[j].0,
        ) by {
            if i == 0 {
                assert(r[j] == s[j - 1]);
                if j - 1 > 0 {
                    lemma_seq_lt_transitive(k, s[0].0, s[j - 1].0);
                }
            } else {
                assert(r[i] == s[i - 1] && r[j] == s[j - 1]);
            }
        }
    } else if s.len() > 0 {
        let r = sorted_put(s, k, w);
        assert forall|i: int, j: int| 0 <= i < j < r.len() implies seq_lt(
            #[trigger] r[i].0,
            #[trigger] r[j].0,
        ) by {
            assert(r[i].0 == s[i].0 && r[j].0 == s[j].0);
        }
    }
}

/// Every key after a put was there before, or is the key put.
pub proof fn lemma_sorted_put_member<W>(s: Seq<(Seq<char>, W)>, k: Seq<char>, w: W, x: int)
    requires
        0 <= x < sorted_put(s, k, w).len(),
    ensures
        sorted_put(s, k, w)[x].0 == k || exists|y: int| 0 <= y < s.len() && s[y].0 == sorted_put(
            s,
            k,
            w,
        )[x].0,
    decreases s.len(),
{
    let r = sorted_put(s, k, w);
    if s.len() == 0 {
    } else if s[0].0 == k {
        if x > 0 {
            assert(r[x] == s[x]);
        }
    } else if seq_lt(k, s[0].0) {
        if x > 0 {
            assert(r[x] == s[x - 1]);
        }
    } else {
        if x == 0 {
            assert(r[0] == s[0]);
        } else {
            lemma_sorted_put_member(s.drop_first(), k, w, x - 1);
            assert(r[x] == sorted_put(s.drop_first(), k, w)[x - 1]);
            if r[x].0 != k {
                let y = choose|y: int| 0 <= y < s.drop_first().len() && s.drop_first()[y].0 == r[x].0;
                assert(s[y + 1] == s.drop_first()[y]);
            }
        }
    }
}

} // verus!
