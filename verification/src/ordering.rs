//! The signatory orderer: one primitive that validates strict ascending
//! order of a signatory list and folds one more signatory into it, rejecting
//! a duplicate. It is deliberately reused for two purposes: canonicalizing a
//! member list at registration, and recording one more endorsement at vote
//! time, where the duplicate rejection doubles as double-vote rejection.

use vstd::prelude::*;

use crate::errors::Error;

verus! {

/// A signatory list is canonical when it is strictly ascending, which also
/// rules out duplicates.
pub open spec fn strictly_ascending(s: Seq<u64>) -> bool {
    forall|i: int, j: int| 0 <= i < j < s.len() ==> s[i] < s[j]
}

/// How many entries of `s` lie strictly below `x`. For a canonical list this
/// is the position at which `x` must be inserted to keep the list canonical.
pub open spec fn count_below(s: Seq<u64>, x: u64) -> int
    decreases s.len(),
{
    if s.len() == 0 {
        0
    } else {
        count_below(s.drop_last(), x) + if s.last() < x {
            1int
        } else {
            0int
        }
    }
}

/// How far a left-to-right scan of `s` gets before the first violation of
/// strict ascent between adjacent entries: the least `k >= 1` with
/// `s[k - 1] >= s[k]`, or `s.len()` when there is none.
pub open spec fn ascent_limit(s: Seq<u64>) -> int
    decreases s.len(),
{
    if s.len() <= 1 {
        s.len() as int
    } else if s[0] >= s[1] {
        1
    } else {
        1 + ascent_limit(s.drop_first())
    }
}

/// What merging `who` into `existing` returns. The scan visits the entries
/// left to right; at each entry the order check (against the previous entry)
/// precedes the duplicate check, so a duplicate is only reported when it is
/// seen before any order violation.
pub open spec fn merge_spec(existing: Seq<u64>, who: u64) -> Result<Seq<u64>, Error> {
    if exists|k: int| 0 <= k < ascent_limit(existing) && existing[k] == who {
        Err(Error::SenderInSignatories)
    } else if ascent_limit(existing) < existing.len() {
        Err(Error::SignatoriesOutOfOrder)
    } else {
        Ok(existing.insert(count_below(existing, who), who))
    }
}

/// A merge result as a mathematical value.
pub open spec fn merge_view(r: Result<Vec<u64>, Error>) -> Result<Seq<u64>, Error> {
    match r {
        Ok(v) => Ok(v@),
        Err(e) => Err(e),
    }
}

pub proof fn lemma_count_below_bounds(s: Seq<u64>, x: u64)
    ensures
        0 <= count_below(s, x) <= s.len(),
    decreases s.len(),
{
    if s.len() > 0 {
        lemma_count_below_bounds(s.drop_last(), x);
    }
}

proof fn lemma_count_below_push(s: Seq<u64>, x: u64, y: u64)
    ensures
        count_below(s.push(y), x) == count_below(s, x) + if y < x {
            1int
        } else {
            0int
        },
{
    assert(s.push(y).drop_last() =~= s);
}

pub proof fn lemma_ascent_limit_bounds(s: Seq<u64>)
    ensures
        0 <= ascent_limit(s) <= s.len(),
    decreases s.len(),
{
    if s.len() > 1 && s[0] < s[1] {
        lemma_ascent_limit_bounds(s.drop_first());
    }
}

/// An adjacent violation at position `i` stops the scan at or before `i`.
proof fn lemma_ascent_limit_violation(s: Seq<u64>, i: int)
    requires
        1 <= i < s.len(),
        s[i - 1] >= s[i],
    ensures
        ascent_limit(s) <= i,
    decreases s.len(),
{
    if i == 1 {
    } else if s[0] < s[1] {
        lemma_ascent_limit_violation(s.drop_first(), i - 1);
    }
}

/// A scan that has reached entry `i` without violation, whose next adjacent
/// pair is in order, reaches past `i`.
proof fn lemma_ascent_limit_step(s: Seq<u64>, i: int)
    requires
        0 <= i < s.len(),
        ascent_limit(s) >= i,
        i == 0 || s[i - 1] < s[i],
    ensures
        ascent_limit(s) >= i + 1,
    decreases s.len(),
{
    if i == 0 {
        if s.len() == 1 {
        } else if s[0] >= s[1] {
        } else {
            lemma_ascent_limit_bounds(s.drop_first());
        }
    } else {
        if s[0] >= s[1] {
        } else {
            lemma_ascent_limit_step(s.drop_first(), i - 1);
        }
    }
}

/// A scan that runs the whole list without violation shows the list
/// canonical, and conversely.
pub proof fn lemma_ascent_limit_full(s: Seq<u64>)
    ensures
        ascent_limit(s) == s.len() <==> strictly_ascending(s),
    decreases s.len(),
{
    lemma_ascent_limit_bounds(s);
    if s.len() <= 1 {
    } else {
        lemma_ascent_limit_full(s.drop_first());
        if ascent_limit(s) == s.len() {
            assert(strictly_ascending(s.drop_first()));
            assert forall|i: int, j: int| 0 <= i < j < s.len() implies s[i] < s[j] by {
                if i == 0 {
                    if j > 1 {
                        assert(s.drop_first()[0] < s.drop_first()[j - 1]);
                    }
                } else {
                    assert(s.drop_first()[i - 1] < s.drop_first()[j - 1]);
                }
            }
        }
        if strictly_ascending(s) {
            assert forall|i: int, j: int|
                0 <= i < j < s.drop_first().len() implies s.drop_first()[i] < s.drop_first()[j] by {
                assert(s[i + 1] < s[j + 1]);
            }
            assert(s[0] < s[1]);
        }
    }
}

/// Inserting a fresh signatory at its counted position keeps the list
/// canonical and grows it by exactly that one signatory.
pub proof fn lemma_merge_keeps_canonical(s: Seq<u64>, who: u64)
    requires
        strictly_ascending(s),
        !s.contains(who),
    ensures
        strictly_ascending(s.insert(count_below(s, who), who)),
        s.insert(count_below(s, who), who).to_multiset() == s.to_multiset().insert(who),
        s.insert(count_below(s, who), who).len() == s.len() + 1,
        forall|x: u64|
            #[trigger] s.insert(count_below(s, who), who).contains(x) <==> (s.contains(x) || x
                == who),
    decreases s.len(),
{
    let pos = count_below(s, who);
    let r = s.insert(pos, who);
    lemma_count_below_bounds(s, who);
    lemma_count_below_position(s, who);
    assert forall|i: int, j: int| 0 <= i < j < r.len() implies r[i] < r[j] by {
        if i < pos && j < pos {
            assert(s[i] < s[j]);
        } else if i < pos && j == pos {
            assert(s[i] < who);
        } else if i < pos && j > pos {
            assert(s[i] < who);
            assert(who <= s[j - 1] && s[j - 1] != who);
        } else if i == pos && j > pos {
            assert(who <= s[j - 1] && s[j - 1] != who);
        } else {
            assert(s[i - 1] < s[j - 1]);
        }
    }
    lemma_insert_multiset(s, pos, who);
    assert forall|x: u64| #[trigger] r.contains(x) implies (s.contains(x) || x == who) by {
        let k = choose|k: int| 0 <= k < r.len() && r[k] == x;
        if k < pos {
            assert(s[k] == x);
        } else if k > pos {
            assert(s[k - 1] == x);
        }
    }
    assert forall|x: u64| s.contains(x) implies r.contains(x) by {
        let k = choose|k: int| 0 <= k < s.len() && s[k] == x;
        if k < pos {
            assert(r[k] == x);
        } else {
            assert(r[k + 1] == x);
        }
    }
    assert(r[pos] == who);
}

/// In a canonical list, exactly the entries before the counted position lie
/// below `who`, and the rest lie at or above it.
pub proof fn lemma_count_below_position(s: Seq<u64>, who: u64)
    requires
        strictly_ascending(s),
    ensures
        forall|i: int| 0 <= i < count_below(s, who) ==> s[i] < who,
        forall|i: int| count_below(s, who) <= i < s.len() ==> s[i] >= who,
    decreases s.len(),
{
    lemma_count_below_bounds(s, who);
    if s.len() > 0 {
        let head = s.drop_last();
        assert(strictly_ascending(head));
        lemma_count_below_position(head, who);
        lemma_count_below_bounds(head, who);
        let pos = count_below(s, who);
        if s.last() < who {
            // every earlier entry is below the last, hence below who
            assert forall|i: int| 0 <= i < pos implies s[i] < who by {
                if i < s.len() - 1 {
                    assert(s[i] < s[s.len() - 1]);
                }
            }
            assert(count_below(head, who) == head.len()) by {
                if count_below(head, who) < head.len() {
                    assert(head[count_below(head, who)] >= who);
                    assert(s[count_below(head, who)] < s[s.len() - 1]);
                }
            }
        } else {
            assert forall|i: int| pos <= i < s.len() implies s[i] >= who by {
                if i < s.len() - 1 {
                    assert(head[i] >= who);
                } else {
                    assert(s.last() >= who);
                }
            }
            assert forall|i: int| 0 <= i < pos implies s[i] < who by {
                assert(head[i] < who);
            }
        }
    }
}

proof fn lemma_insert_multiset(s: Seq<u64>, pos: int, who: u64)
    requires
        0 <= pos <= s.len(),
    ensures
        s.insert(pos, who).to_multiset() == s.to_multiset().insert(who),
{
    let r = s.insert(pos, who);
    assert(r.remove(pos) =~= s);
    r.to_multiset_ensures();
    assert(r.remove(pos).to_multiset() =~= r.to_multiset().remove(who));
    assert(r.to_multiset().count(who) > 0) by {
        assert(r[pos] == who);
        assert(r.contains(who));
    }
    assert(s.to_multiset().insert(who) =~= r.to_multiset());
}

/// Two canonical lists holding the same signatories are the same list.
pub proof fn lemma_canonical_unique(a: Seq<u64>, b: Seq<u64>)
    requires
        strictly_ascending(a),
        strictly_ascending(b),
        a.to_multiset() == b.to_multiset(),
    ensures
        a == b,
    decreases a.len(),
{
    a.to_multiset_ensures();
    b.to_multiset_ensures();
    if a.len() == 0 {
        assert(a =~= b);
    } else {
        assert(a.to_multiset().len() == b.to_multiset().len());
        let la = a.last();
        let lb = b.last();
        assert(a.contains(la) && b.contains(lb));
        assert(b.to_multiset().count(la) > 0 && a.to_multiset().count(lb) > 0);
        assert(a.contains(lb) && b.contains(la));
        // the last entry of a canonical list is its unique maximum
        assert(la <= lb) by {
            let k = choose|k: int| 0 <= k < b.len() && b[k] == la;
            if k < b.len() - 1 {
                assert(b[k] < b[b.len() - 1]);
            }
        }
        assert(lb <= la) by {
            let k = choose|k: int| 0 <= k < a.len() && a[k] == lb;
            if k < a.len() - 1 {
                assert(a[k] < a[a.len() - 1]);
            }
        }
        let ha = a.drop_last();
        let hb = b.drop_last();
        assert(a =~= ha.push(la) && b =~= hb.push(la));
        assert(ha.push(la).to_multiset() == ha.to_multiset().insert(la)) by {
            ha.to_multiset_ensures();
        }
        assert(hb.push(la).to_multiset() == hb.to_multiset().insert(la)) by {
            hb.to_multiset_ensures();
        }
        assert(ha.to_multiset() =~= hb.to_multiset()) by {
            assert forall|x: u64| true implies ha.to_multiset().count(x) == hb.to_multiset().count(
                x,
            ) by {
                assert(ha.to_multiset().insert(la).count(x) == hb.to_multiset().insert(la).count(
                    x,
                ));
            }
        }
        assert(strictly_ascending(ha) && strictly_ascending(hb));
        lemma_canonical_unique(ha, hb);
    }
}

/// Merging succeeds exactly on a canonical list that does not hold the
/// newcomer.
pub proof fn lemma_merge_ok_iff(s: Seq<u64>, who: u64)
    ensures
        merge_spec(s, who) is Ok <==> (strictly_ascending(s) && !s.contains(who)),
{
    lemma_ascent_limit_full(s);
    lemma_ascent_limit_bounds(s);
    if strictly_ascending(s) && !s.contains(who) {
        assert forall|k: int| 0 <= k < ascent_limit(s) implies s[k] != who by {
            assert(!s.contains(who));
        }
    }
    if merge_spec(s, who) is Ok {
        if s.contains(who) {
            let k = choose|k: int| 0 <= k < s.len() && s[k] == who;
            assert(0 <= k < ascent_limit(s) && s[k] == who);
        }
    }
}

/// What a successful merge returns: the input with the newcomer inserted at
/// its place, still canonical, one longer, holding exactly the old
/// signatories and the newcomer.
pub proof fn lemma_merge_ok_props(s: Seq<u64>, who: u64)
    requires
        merge_spec(s, who) is Ok,
    ensures
        strictly_ascending(s),
        !s.contains(who),
        strictly_ascending(merge_spec(s, who)->Ok_0),
        merge_spec(s, who)->Ok_0.len() == s.len() + 1,
        merge_spec(s, who)->Ok_0.to_multiset() == s.to_multiset().insert(who),
        forall|x: u64|
            #[trigger] merge_spec(s, who)->Ok_0.contains(x) <==> (s.contains(x) || x == who),
{
    lemma_merge_ok_iff(s, who);
    lemma_merge_keeps_canonical(s, who);
}

/// Merging a signatory already on a canonical list reports the duplicate.
pub proof fn lemma_merge_duplicate(s: Seq<u64>, who: u64)
    requires
        strictly_ascending(s),
        s.contains(who),
    ensures
        merge_spec(s, who) == Err::<Seq<u64>, Error>(Error::SenderInSignatories),
{
    lemma_ascent_limit_full(s);
    let k = choose|k: int| 0 <= k < s.len() && s[k] == who;
    assert(0 <= k < ascent_limit(s) && s[k] == who);
}

/// Check that `other_signatories` is strictly ascending and does not contain
/// `who`, then insert `who` at the position that keeps the list ascending.
///
/// Fails with `SignatoriesOutOfOrder` at the first adjacent pair out of
/// order, and with `SenderInSignatories` when `who` is seen before any such
/// pair.
#[verifier::loop_isolation(false)]
pub fn ensure_sorted_and_insert(other_signatories: Vec<u64>, who: u64) -> (r: Result<
    Vec<u64>,
    Error,
>)
    ensures
        merge_view(r) == merge_spec(other_signatories@, who),
{
    let ghost s = other_signatories@;
    let mut signatories = other_signatories;
    let n = signatories.len();
    let mut index: usize = 0;
    let mut i: usize = 0;
    proof {
        assert(s.take(0) =~= Seq::<u64>::empty());
        lemma_ascent_limit_bounds(s);
    }
    while i < n
        invariant
            signatories@ == s,
            n == s.len(),
            i <= n,
            ascent_limit(s) >= i,
            forall|k: int| 0 <= k < i ==> s[k] != who,
            index == count_below(s.take(i as int), who),
            index <= i,
        decreases n - i,
    {
        let item = signatories[i];
        if i > 0 && signatories[i - 1] >= item {
            proof {
                lemma_ascent_limit_violation(s, i as int);
                assert(ascent_limit(s) == i);
            }
            return Err(Error::SignatoriesOutOfOrder);
        }
        proof {
            lemma_ascent_limit_step(s, i as int);
        }
        if item <= who {
            if item == who {
                proof {
                    assert(exists|k: int| 0 <= k < ascent_limit(s) && s[k] == who) by {
                        assert(0 <= i < ascent_limit(s) && s[i as int] == who);
                    }
                }
                return Err(Error::SenderInSignatories);
            }
            index += 1;
        }
        proof {
            lemma_count_below_push(s.take(i as int), who, s[i as int]);
            assert(s.take(i + 1) =~= s.take(i as int).push(s[i as int]));
        }
        i += 1;
    }
    proof {
        lemma_ascent_limit_bounds(s);
        assert(s.take(n as int) =~= s);
        lemma_count_below_bounds(s, who);
    }
    signatories.insert(index, who);
    Ok(signatories)
}

/// Whether `x` occurs in the canonical list `v`, decided by binary search.
pub fn contains_sorted(v: &Vec<u64>, x: u64) -> (r: bool)
    requires
        strictly_ascending(v@),
    ensures
        r == v@.contains(x),
{
    let mut lo: usize = 0;
    let mut hi: usize = v.len();
    while lo < hi
        invariant
            lo <= hi <= v@.len(),
            strictly_ascending(v@),
            forall|k: int| 0 <= k < lo ==> v@[k] < x,
            forall|k: int| hi <= k < v@.len() ==> v@[k] > x,
        decreases hi - lo,
    {
        let mid = lo + (hi - lo) / 2;
        if v[mid] == x {
            assert(v@.contains(x));
            return true;
        } else if v[mid] < x {
            proof {
                assert forall|k: int| 0 <= k < mid + 1 implies v@[k] < x by {
                    if k < mid {
                        assert(v@[k] < v@[mid as int]);
                    }
                }
            }
            lo = mid + 1;
        } else {
            proof {
                assert forall|k: int| mid <= k < v@.len() implies v@[k] > x by {
                    if k > mid {
                        assert(v@[mid as int] < v@[k]);
                    }
                }
            }
            hi = mid;
        }
    }
    proof {
        if v@.contains(x) {
            let k = choose|k: int| 0 <= k < v@.len() && v@[k] == x;
            assert(false);
        }
    }
    false
}

} // verus!
