//! Listing of groups by type and gender, ordered by name.

use vstd::prelude::*;
use vstd::string::*;

use crate::reply::{lookup_reply, reply_is, Reply, Status};
use crate::text::{trim, trimmed};

verus! {

/// One group of a listing.
#[derive(Debug, PartialEq, Eq)]
pub struct Group {
    pub name: String,
    pub logo: String,
    pub ticker: String,
}

/// `a` comes before or equals `b` in the order of `String`: lexicographic by
/// character (UTF-8 bytes compare as their code points do).
pub open spec fn name_le(a: Seq<char>, b: Seq<char>) -> bool
    decreases a.len(),
{
    if a.len() == 0 {
        true
    } else if b.len() == 0 {
        false
    } else if a[0] != b[0] {
        a[0] < b[0]
    } else {
        name_le(a.drop_first(), b.drop_first())
    }
}

/// The groups are in order of name.
pub open spec fn sorted_by_name(s: Seq<Group>) -> bool {
    forall|k: int, l: int| 0 <= k < l < s.len() ==> name_le(#[trigger] s[k].name@, #[trigger] s[l].name@)
}

/// `out` holds the groups of `inp`, `out[k]` being `inp[perm[k]]`, and groups
/// of equal name keep the order they had in `inp`.
pub open spec fn stable_reordering(out: Seq<Group>, inp: Seq<Group>, perm: Seq<int>) -> bool {
    &&& perm.len() == inp.len()
    &&& out.len() == inp.len()
    &&& forall|k: int| 0 <= k < perm.len() ==> 0 <= #[trigger] perm[k] < inp.len()
    &&& forall|k: int, l: int| 0 <= k < l < perm.len() ==> #[trigger] perm[k] != #[trigger] perm[l]
    &&& forall|k: int| 0 <= k < out.len() ==> #[trigger] out[k] == inp[perm[k]]
    &&& forall|k: int, l: int|
        0 <= k < l < out.len() && (#[trigger] out[k]).name@ == (#[trigger] out[l]).name@ ==> perm[k]
            < perm[l]
}

/// `out` is `inp` sorted by name with a stable sort, as `sort_by_key` on the
/// name sorts it.
pub open spec fn stable_sort_by_name(out: Seq<Group>, inp: Seq<Group>) -> bool {
    &&& sorted_by_name(out)
    &&& exists|perm: Seq<int>| stable_reordering(out, inp, perm)
}

/// `name_le` is reflexive.
pub proof fn lemma_name_le_reflexive(a: Seq<char>)
    ensures
        name_le(a, a),
    decreases a.len(),
{
    if a.len() > 0 {
        lemma_name_le_reflexive(a.drop_first());
    }
}

/// Any two names are ordered one way or the other.
pub proof fn lemma_name_le_total(a: Seq<char>, b: Seq<char>)
    ensures
        name_le(a, b) || name_le(b, a),
    decreases a.len(),
{
    if a.len() > 0 && b.len() > 0 && a[0] == b[0] {
        lemma_name_le_total(a.drop_first(), b.drop_first());
    }
}

/// Names ordered both ways are equal.
pub proof fn lemma_name_le_antisymmetric(a: Seq<char>, b: Seq<char>)
    requires
        name_le(a, b),
        name_le(b, a),
    ensures
        a == b,
    decreases a.len(),
{
    if a.len() == 0 {
        assert(b.len() == 0);
        assert(a =~= b);
    } else {
        assert(b.len() > 0);
        assert(a[0] == b[0]);
        lemma_name_le_antisymmetric(a.drop_first(), b.drop_first());
        assert(a =~= seq![a[0]] + a.drop_first());
        assert(b =~= seq![b[0]] + b.drop_first());
    }
}

/// `name_le` is the lexicographic order of code points, the order of
/// `String`: `a` comes before or equals `b` exactly when `a` is a prefix of
/// `b`, or at the first position where they differ `a`'s character has the
/// smaller code point.
pub proof fn lemma_name_le_lexicographic(a: Seq<char>, b: Seq<char>)
    ensures
        name_le(a, b) <==> ((a.len() <= b.len() && a == b.take(a.len() as int)) || exists|i: int|
            0 <= i < a.len() && i < b.len() && a.take(i) == b.take(i) && (a[i] as int) < (
            b[i] as int)),
    decreases a.len(),
{
    let prefix = a.len() <= b.len() && a == b.take(a.len() as int);
    if a.len() == 0 {
        assert(a =~= b.take(0));
    } else if b.len() == 0 {
    } else if a[0] != b[0] {
        if prefix {
            assert(b.take(a.len() as int)[0] == b[0]);
        }
        if a[0] < b[0] {
            assert(a.take(0) =~= b.take(0));
            assert((a[0] as int) < (b[0] as int));
        } else {
            assert forall|i: int|
                0 <= i < a.len() && i < b.len() && a.take(i) == b.take(i) implies !((a[i] as int)
                < (b[i] as int)) by {
                if i > 0 {
                    assert(a.take(i)[0] == b.take(i)[0]);
                }
            }
        }
    } else {
        let a1 = a.drop_first();
        let b1 = b.drop_first();
        lemma_name_le_lexicographic(a1, b1);
        let prefix1 = a1.len() <= b1.len() && a1 == b1.take(a1.len() as int);
        if prefix1 {
            assert forall|k: int| 0 <= k < a.len() implies a[k] == b.take(a.len() as int)[k] by {
                if k > 0 {
                    assert(a[k] == a1[k - 1]);
                    assert(b1.take(a1.len() as int)[k - 1] == b[k]);
                }
            }
            assert(a =~= b.take(a.len() as int));
        }
        if prefix {
            assert(a1 =~= b1.take(a1.len() as int));
        }
        if exists|i: int|
            0 <= i < a1.len() && i < b1.len() && a1.take(i) == b1.take(i) && (a1[i] as int) < (
            b1[i] as int) {
            let i = choose|i: int|
                0 <= i < a1.len() && i < b1.len() && a1.take(i) == b1.take(i) && (a1[i] as int) < (
                b1[i] as int);
            assert(a.take(i + 1) =~= seq![a[0]] + a1.take(i));
            assert(b.take(i + 1) =~= seq![b[0]] + b1.take(i));
            assert(a[i + 1] == a1[i]);
            assert(b[i + 1] == b1[i]);
        }
        if exists|i: int|
            0 <= i < a.len() && i < b.len() && a.take(i) == b.take(i) && (a[i] as int) < (
            b[i] as int) {
            let i = choose|i: int|
                0 <= i < a.len() && i < b.len() && a.take(i) == b.take(i) && (a[i] as int) < (
                b[i] as int);
            assert(i > 0);
            assert(a1.take(i - 1) =~= a.take(i).drop_first());
            assert(b1.take(i - 1) =~= b.take(i).drop_first());
            assert(a1[i - 1] == a[i]);
            assert(b1[i - 1] == b[i]);
        }
    }
}

/// `name_le` is transitive.
pub proof fn lemma_name_le_transitive(a: Seq<char>, b: Seq<char>, c: Seq<char>)
    requires
        name_le(a, b),
        name_le(b, c),
    ensures
        name_le(a, c),
    decreases a.len(),
{
    if a.len() > 0 && b.len() > 0 && c.len() > 0 && a[0] == b[0] && b[0] == c[0] {
        lemma_name_le_transitive(a.drop_first(), b.drop_first(), c.drop_first());
    }
}

/// Whether `a` comes before or equals `b` in name order.
pub fn name_le_str(a: &str, b: &str) -> (r: bool)
    ensures
        r == name_le(a@, b@),
{
    let n = a.unicode_len();
    let m = b.unicode_len();
    let mut i: usize = 0;
    assert(a@.skip(0) =~= a@);
    assert(b@.skip(0) =~= b@);
    while i < n && i < m && a.get_char(i) == b.get_char(i)
        invariant
            n == a@.len(),
            m == b@.len(),
            i <= n,
            i <= m,
            name_le(a@, b@) == name_le(a@.skip(i as int), b@.skip(i as int)),
        decreases n - i,
    {
        proof {
            let x = a@.skip(i as int);
            let y = b@.skip(i as int);
            assert(x.drop_first() =~= a@.skip(i + 1));
            assert(y.drop_first() =~= b@.skip(i + 1));
        }
        i = i + 1;
    }
    if i == n {
        true
    } else if i == m {
        false
    } else {
        let c = a.get_char(i);
        let d = b.get_char(i);
        proof {
            assert(a@.skip(i as int)[0] == c);
            assert(b@.skip(i as int)[0] == d);
        }
        c < d
    }
}

/// Sorts groups by name with a stable sort: groups of equal name keep their
/// order.
pub fn sort_by_name(rows: Vec<Group>) -> (sorted: Vec<Group>)
    ensures
        stable_sort_by_name(sorted@, rows@),
{
    let ghost orig = rows@;
    assert(orig.len() == rows.len());
    let mut rest = rows;
    let mut out: Vec<Group> = Vec::new();
    let ghost mut perm: Seq<int> = Seq::empty();
    let mut i: usize = 0;
    assert(orig.skip(0) =~= orig);
    while rest.len() > 0
        invariant
            i <= orig.len() <= usize::MAX,
            rest@ == orig.skip(i as int),
            sorted_by_name(out@),
            stable_reordering(out@, orig.take(i as int), perm),
        decreases rest.len(),
    {
        let x = rest.remove(0);
        assert(rest@ =~= orig.skip(i + 1));
        let mut p: usize = 0;
        while p < out.len() && name_le_str(out[p].name.as_str(), x.name.as_str())
            invariant
                p <= out@.len(),
                forall|k: int| 0 <= k < p ==> name_le(#[trigger] out@[k].name@, x.name@),
            decreases out.len() - p,
        {
            p = p + 1;
        }
        let ghost old_out = out@;
        let ghost old_perm = perm;
        proof {
            assert(x == orig[i as int]);
            if p < old_out.len() {
                lemma_name_le_total(old_out[p as int].name@, x.name@);
                assert forall|l: int| p <= l < old_out.len() implies name_le(
                    x.name@,
                    #[trigger] old_out[l].name@,
                ) && x.name@ != old_out[l].name@ by {
                    if l > p {
                        lemma_name_le_transitive(x.name@, old_out[p as int].name@, old_out[l].name@);
                    }
                    if x.name@ == old_out[l].name@ {
                        lemma_name_le_antisymmetric(x.name@, old_out[p as int].name@);
                        lemma_name_le_reflexive(x.name@);
                    }
                }
            }
        }
        out.insert(p, x);
        proof {
            perm = old_perm.insert(p as int, i as int);
            let inp = orig.take(i + 1);
            assert(orig.take(i as int) =~= inp.drop_last());
            assert forall|k: int, l: int| 0 <= k < l < out@.len() implies name_le(
                #[trigger] out@[k].name@,
                #[trigger] out@[l].name@,
            ) by {
                if k < p && l < p {
                } else if k < p && l == p {
                } else if k < p {
                    assert(out@[l] == old_out[l - 1]);
                } else if k == p {
                    assert(out@[l] == old_out[l - 1]);
                } else {
                    assert(out@[k] == old_out[k - 1]);
                    assert(out@[l] == old_out[l - 1]);
                }
            }
            assert forall|k: int| 0 <= k < perm.len() implies 0 <= #[trigger] perm[k] < inp.len() by {
                if k < p {
                } else if k > p {
                    assert(perm[k] == old_perm[k - 1]);
                }
            }
            assert forall|k: int, l: int| 0 <= k < l < perm.len() implies #[trigger] perm[k]
                != #[trigger] perm[l] by {
                if k < p && l < p {
                } else if k < p && l == p {
                } else if k < p {
                    assert(perm[l] == old_perm[l - 1]);
                } else if k == p {
                    assert(perm[l] == old_perm[l - 1]);
                } else {
                    assert(perm[k] == old_perm[k - 1]);
                    assert(perm[l] == old_perm[l - 1]);
                }
            }
            assert forall|k: int| 0 <= k < out@.len() implies #[trigger] out@[k] == inp[perm[k]] by {
                if k < p {
                    assert(out@[k] == old_out[k]);
                } else if k > p {
                    assert(out@[k] == old_out[k - 1]);
                    assert(perm[k] == old_perm[k - 1]);
                }
            }
            assert forall|k: int, l: int|
                0 <= k < l < out@.len() && (#[trigger] out@[k]).name@ == (
                #[trigger] out@[l]).name@ implies perm[k] < perm[l] by {
                if k < p && l < p {
                } else if k < p && l == p {
                } else if k < p {
                    assert(out@[l] == old_out[l - 1]);
                    assert(perm[l] == old_perm[l - 1]);
                } else if k == p {
                    assert(out@[l] == old_out[l - 1]);
                } else {
                    assert(out@[k] == old_out[k - 1]);
                    assert(out@[l] == old_out[l - 1]);
                    assert(perm[k] == old_perm[k - 1]);
                    assert(perm[l] == old_perm[l - 1]);
                }
            }
        }
        i = i + 1;
    }
    assert(orig.take(i as int) =~= orig);
    out
}

proof fn lemma_increasing_at_least_index(p: Seq<int>, k: int)
    requires
        0 <= k < p.len(),
        forall|i: int| 0 <= i < p.len() ==> 0 <= #[trigger] p[i],
        forall|i: int, j: int| 0 <= i < j < p.len() ==> #[trigger] p[i] < #[trigger] p[j],
    ensures
        p[k] >= k,
    decreases k,
{
    if k > 0 {
        lemma_increasing_at_least_index(p, k - 1);
        assert(p[k - 1] < p[k]);
    }
}

proof fn lemma_increasing_at_most_index(p: Seq<int>, k: int)
    requires
        0 <= k < p.len(),
        forall|i: int| 0 <= i < p.len() ==> #[trigger] p[i] < p.len(),
        forall|i: int, j: int| 0 <= i < j < p.len() ==> #[trigger] p[i] < #[trigger] p[j],
    ensures
        p[k] <= k,
    decreases p.len() - k,
{
    if k < p.len() - 1 {
        lemma_increasing_at_most_index(p, k + 1);
        assert(p[k] < p[k + 1]);
    } else {
        assert(p[k] < p.len());
    }
}

/// Sorting groups that already come in name order leaves them as they are.
pub proof fn lemma_sorted_input_unchanged(out: Seq<Group>, inp: Seq<Group>)
    requires
        stable_sort_by_name(out, inp),
        sorted_by_name(inp),
    ensures
        out == inp,
{
    let perm = choose|perm: Seq<int>| stable_reordering(out, inp, perm);
    assert forall|k: int, l: int| 0 <= k < l < perm.len() implies #[trigger] perm[k]
        < #[trigger] perm[l] by {
        if perm[k] > perm[l] {
            assert(out[k] == inp[perm[k]]);
            assert(out[l] == inp[perm[l]]);
            assert(name_le(inp[perm[l]].name@, inp[perm[k]].name@));
            assert(name_le(out[k].name@, out[l].name@));
            lemma_name_le_antisymmetric(out[k].name@, out[l].name@);
        } else {
            assert(perm[k] != perm[l]);
        }
    }
    assert forall|k: int| 0 <= k < out.len() implies #[trigger] out[k] == inp[k] by {
        lemma_increasing_at_least_index(perm, k);
        lemma_increasing_at_most_index(perm, k);
    }
    assert(out =~= inp);
}

/// Sorting a sorted listing again gives the same listing.
pub proof fn lemma_sort_idempotent(inp: Seq<Group>, once: Seq<Group>, twice: Seq<Group>)
    requires
        stable_sort_by_name(once, inp),
        stable_sort_by_name(twice, once),
    ensures
        twice == once,
{
    lemma_sorted_input_unchanged(twice, once);
}

/// The gender filters that a listing accepts: `boy`, `girl` or `all`.
pub open spec fn is_gender_filter(g: Seq<char>) -> bool {
    ||| g == seq!['b', 'o', 'y']
    ||| g == seq!['g', 'i', 'r', 'l']
    ||| g == seq!['a', 'l', 'l']
}

/// The group types that a listing accepts: `group` or `solo`.
pub open spec fn is_group_type(t: Seq<char>) -> bool {
    ||| t == seq!['g', 'r', 'o', 'u', 'p']
    ||| t == seq!['s', 'o', 'l', 'o']
}

/// The accepted path segments are exactly the literal strings: genders
/// `boy`, `girl` and `all`, types `group` and `solo`.
pub proof fn lemma_listing_segments(g: Seq<char>, t: Seq<char>)
    ensures
        is_gender_filter(g) <==> (g =~= "boy"@ || g =~= "girl"@ || g =~= "all"@),
        is_group_type(t) <==> (t =~= "group"@ || t =~= "solo"@),
{
    reveal_strlit("boy");
    reveal_strlit("girl");
    reveal_strlit("all");
    reveal_strlit("group");
    reveal_strlit("solo");
    assert("boy"@ =~= seq!['b', 'o', 'y']);
    assert("girl"@ =~= seq!['g', 'i', 'r', 'l']);
    assert("all"@ =~= seq!['a', 'l', 'l']);
    assert("group"@ =~= seq!['g', 'r', 'o', 'u', 'p']);
    assert("solo"@ =~= seq!['s', 'o', 'l', 'o']);
}

/// The lookup that a listing makes.
#[derive(Debug, PartialEq, Eq)]
pub enum GroupsQuery {
    /// The groups of one type, whatever their gender.
    OfType { group_type: String },
    /// The groups of one gender and type.
    OfGenderAndType { gender: String, group_type: String },
}

/// `q` is the lookup for the trimmed segments `t` (type) and `g` (gender).
pub open spec fn is_query_for(q: GroupsQuery, t: Seq<char>, g: Seq<char>) -> bool {
    if g == seq!['a', 'l', 'l'] {
        q matches GroupsQuery::OfType { group_type } && group_type@ == t
    } else {
        q matches GroupsQuery::OfGenderAndType { gender, group_type } && gender@ == g
            && group_type@ == t
    }
}

fn str_is(s: &String, lit: &str) -> (b: bool)
    ensures
        b == (s@ == lit@),
{
    *s == String::from_str(lit)
}

/// Checks the `{type}/{gender}` path of a listing and picks its lookup. Both
/// segments are trimmed; a gender other than `boy`, `girl` or `all`, or a type
/// other than `group` or `solo`, is answered with `500 Internal Server Error`.
pub fn get_groups_api(group_type: &str, gender: &str) -> (r: Result<GroupsQuery, Reply>)
    ensures
        r is Ok <==> is_gender_filter(trimmed(gender@)) && is_group_type(trimmed(group_type@)),
        r matches Ok(q) ==> is_query_for(q, trimmed(group_type@), trimmed(gender@)),
        r matches Err(e) ==> reply_is(e, Status::InternalServerError, Seq::empty()),
{
    proof {
        reveal_strlit("boy");
        reveal_strlit("girl");
        reveal_strlit("all");
        reveal_strlit("group");
        reveal_strlit("solo");
    }
    assert("boy"@ =~= seq!['b', 'o', 'y']);
    assert("girl"@ =~= seq!['g', 'i', 'r', 'l']);
    assert("all"@ =~= seq!['a', 'l', 'l']);
    assert("group"@ =~= seq!['g', 'r', 'o', 'u', 'p']);
    assert("solo"@ =~= seq!['s', 'o', 'l', 'o']);
    let gender = trim(gender);
    if !str_is(&gender, "boy") && !str_is(&gender, "girl") && !str_is(&gender, "all") {
        return Err(Reply::internal_error());
    }
    let group_type = trim(group_type);
    if !str_is(&group_type, "group") && !str_is(&group_type, "solo") {
        return Err(Reply::internal_error());
    }
    if str_is(&gender, "all") {
        Ok(GroupsQuery::OfType { group_type })
    } else {
        Ok(GroupsQuery::OfGenderAndType { gender, group_type })
    }
}

/// The answer to a listing: the groups found, sorted by name with a stable
/// sort, or `500 Internal Server Error` where the lookup failed.
pub fn groups_reply(rows: Option<Vec<Group>>) -> (r: Result<Vec<Group>, Reply>)
    ensures
        rows is None <==> r is Err,
        r matches Err(e) ==> reply_is(e, Status::InternalServerError, Seq::empty()),
        r matches Ok(groups) ==> stable_sort_by_name(groups@, rows->Some_0@),
{
    match lookup_reply(rows) {
        Ok(found) => Ok(sort_by_name(found)),
        Err(e) => Err(e),
    }
}

} // verus!
