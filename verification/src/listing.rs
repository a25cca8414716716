//! Rule listings: keep the rules that carry the marker prefix, then
//! order them by application name, case-insensitively and stably.

use vstd::prelude::*;
use vstd::multiset::Multiset;
use vstd::relations::sorted_by;
use vstd::seq_lib::lemma_multiset_commutative;
use crate::rule::{FwRule, has_marker};
use crate::text::{lex_le, lower_of, lemma_lex_le_total, lemma_lex_le_trans, to_lowercase,
    lex_le_exec};

verus! {

/// Case-insensitive ordering of rules by application name.
pub open spec fn rule_le(a: FwRule, b: FwRule) -> bool {
    lex_le(lower_of(a.app_name@), lower_of(b.app_name@))
}

/// The ordering as a relation value, in the form `sorted_by` expects.
pub open spec fn rule_order() -> spec_fn(FwRule, FwRule) -> bool {
    |a: FwRule, b: FwRule| rule_le(a, b)
}

/// The marker filter as a predicate value.
pub open spec fn marked() -> spec_fn(FwRule) -> bool {
    |r: FwRule| has_marker(r.name@)
}

/// Any two rules are comparable.
pub proof fn lemma_rule_le_total(a: FwRule, b: FwRule)
    ensures
        rule_le(a, b) || rule_le(b, a),
{
    lemma_lex_le_total(lower_of(a.app_name@), lower_of(b.app_name@));
}

/// The rule order is transitive.
pub proof fn lemma_rule_le_trans(a: FwRule, b: FwRule, c: FwRule)
    requires
        rule_le(a, b),
        rule_le(b, c),
    ensures
        rule_le(a, c),
{
    lemma_lex_le_trans(
        lower_of(a.app_name@),
        lower_of(b.app_name@),
        lower_of(c.app_name@),
    );
}

/// Insert a rule behind every rule that compares less-or-equal to it:
/// the insertion step of a stable insertion sort. A rule inserted later
/// lands after rules of equal key that are already placed.
pub open spec fn insert_le(x: FwRule, s: Seq<FwRule>) -> Seq<FwRule>
    decreases s.len(),
{
    if s.len() == 0 {
        seq![x]
    } else if rule_le(s[0], x) {
        seq![s[0]] + insert_le(x, s.drop_first())
    } else {
        seq![x] + s
    }
}

/// Stable insertion sort of rules by case-insensitive application name.
pub open spec fn sort_rules(s: Seq<FwRule>) -> Seq<FwRule>
    decreases s.len(),
{
    if s.len() == 0 {
        Seq::<FwRule>::empty()
    } else {
        insert_le(s.last(), sort_rules(s.drop_last()))
    }
}

/// What a listing returns for a given store content: exactly the
/// marker-prefixed rules, ordered by case-insensitive application name.
pub open spec fn spec_listing(s: Seq<FwRule>) -> Seq<FwRule> {
    sort_rules(s.filter(marked()))
}

proof fn lemma_insert_le_multiset(x: FwRule, s: Seq<FwRule>)
    ensures
        insert_le(x, s).to_multiset() =~= s.to_multiset().insert(x),
    decreases s.len(),
{
    broadcast use vstd::multiset::group_multiset_axioms;

    if s.len() == 0 {
        assert(seq![x] =~= s.push(x));
        s.to_multiset_ensures();
        assert(s.push(x).to_multiset() =~= s.to_multiset().insert(x));
    } else if rule_le(s[0], x) {
        let rest = s.drop_first();
        let t = insert_le(x, rest);
        lemma_insert_le_multiset(x, rest);
        lemma_multiset_commutative(seq![s[0]], t);
        lemma_multiset_commutative(seq![s[0]], rest);
        assert(s =~= seq![s[0]] + rest);
    } else {
        vstd::seq_lib::lemma_seq_union_to_multiset_commutative(seq![x], s);
        assert(s + seq![x] =~= s.push(x));
        s.to_multiset_ensures();
        assert(s.push(x).to_multiset() =~= s.to_multiset().insert(x));
    }
}

/// Sorting does not add, drop or duplicate rules: the result holds the
/// same rules with the same multiplicities.
pub proof fn lemma_sort_rules_multiset(s: Seq<FwRule>)
    ensures
        sort_rules(s).to_multiset() =~= s.to_multiset(),
    decreases s.len(),
{
    if s.len() == 0 {
        assert(s =~= Seq::<FwRule>::empty());
    } else {
        lemma_sort_rules_multiset(s.drop_last());
        lemma_insert_le_multiset(s.last(), sort_rules(s.drop_last()));
        assert(s =~= s.drop_last().push(s.last()));
        s.drop_last().to_multiset_ensures();
        assert(s.drop_last().push(s.last()).to_multiset() =~= s.drop_last().to_multiset().insert(
            s.last(),
        ));
    }
}

proof fn lemma_insert_le_sorted(x: FwRule, s: Seq<FwRule>)
    requires
        sorted_by(s, rule_order()),
    ensures
        sorted_by(insert_le(x, s), rule_order()),
    decreases s.len(),
{
    broadcast use vstd::multiset::group_multiset_axioms;

    if s.len() == 0 {
    } else if rule_le(s[0], x) {
        let rest = s.drop_first();
        assert forall|i: int, j: int|
            0 <= i < j < rest.len() implies #[trigger] rule_order()(rest[i], rest[j]) by {
            assert(rest[i] == s[i + 1]);
            assert(rest[j] == s[j + 1]);
            assert(rule_order()(s[i + 1], s[j + 1]));
        }
        assert(sorted_by(rest, rule_order()));
        lemma_insert_le_sorted(x, rest);
        let t = insert_le(x, rest);
        lemma_insert_le_multiset(x, rest);
        t.to_multiset_ensures();
        rest.to_multiset_ensures();
        // every element of `t` is `x` or an element of `rest`, and `s[0]`
        // precedes them all
        assert forall|j: int| 0 <= j < t.len() implies rule_le(s[0], t[j]) by {
            assert(t.contains(t[j]));
            if t[j] == x {
            } else {
                assert(t.to_multiset() == rest.to_multiset().insert(x));
                assert(t.to_multiset().count(t[j]) > 0);
                assert(rest.to_multiset().insert(x).count(t[j]) == rest.to_multiset().count(t[j])
                    + Multiset::<FwRule>::singleton(x).count(t[j]));
                assert(Multiset::<FwRule>::singleton(x).count(t[j]) == 0);
                assert(rest.to_multiset().count(t[j]) > 0);
                assert(rest.contains(t[j]));
                let w = choose|w: int| 0 <= w < rest.len() && rest[w] == t[j];
                assert(rule_order()(s[0], s[w + 1]));
            }
        }
        let r = seq![s[0]] + t;
        assert forall|i: int, j: int| 0 <= i < j < r.len() implies rule_order()(r[i], r[j]) by {
            if i == 0 {
                assert(rule_le(s[0], t[j - 1]));
            } else {
                assert(rule_order()(t[i - 1], t[j - 1]));
            }
        }
    } else {
        lemma_rule_le_total(s[0], x);
        let r = seq![x] + s;
        assert forall|i: int, j: int| 0 <= i < j < r.len() implies rule_order()(r[i], r[j]) by {
            if i == 0 {
                if j == 1 {
                } else {
                    assert(rule_order()(s[0], s[j - 1]));
                    lemma_rule_le_trans(x, s[0], s[j - 1]);
                }
            } else {
                assert(rule_order()(s[i - 1], s[j - 1]));
            }
        }
    }
}

/// The outcome of sorting is sorted by the rule order.
pub proof fn lemma_sort_rules_sorted(s: Seq<FwRule>)
    ensures
        sorted_by(sort_rules(s), rule_order()),
    decreases s.len(),
{
    if s.len() > 0 {
        lemma_sort_rules_sorted(s.drop_last());
        lemma_insert_le_sorted(s.last(), sort_rules(s.drop_last()));
    }
}

/// Inserting at the boundary between the less-or-equal prefix and the
/// strictly greater suffix is exactly the insertion step of the sort.
proof fn lemma_insert_le_at(x: FwRule, s: Seq<FwRule>, pos: int)
    requires
        0 <= pos <= s.len(),
        forall|j: int| 0 <= j < pos ==> rule_le(#[trigger] s[j], x),
        forall|j: int| pos <= j < s.len() ==> !rule_le(#[trigger] s[j], x),
    ensures
        insert_le(x, s) == s.insert(pos, x),
    decreases s.len(),
{
    if pos == 0 {
        if s.len() == 0 {
            assert(insert_le(x, s) =~= s.insert(0, x));
        } else {
            assert(!rule_le(s[0], x));
            assert(seq![x] + s =~= s.insert(0, x));
        }
    } else {
        assert(rule_le(s[0], x));
        let rest = s.drop_first();
        assert(forall|j: int| 0 <= j < pos - 1 ==> rule_le(#[trigger] rest[j], x));
        assert(forall|j: int| pos - 1 <= j < rest.len() ==> !rule_le(#[trigger] rest[j], x));
        lemma_insert_le_at(x, rest, pos - 1);
        assert(seq![s[0]] + rest.insert(pos - 1, x) =~= s.insert(pos, x));
    }
}

/// Filtering a sequence extended by one element keeps the filtered
/// prefix and appends the element exactly when it satisfies the
/// predicate.
pub(crate) proof fn lemma_filter_push(s: Seq<FwRule>, x: FwRule, pred: spec_fn(FwRule) -> bool)
    ensures
        (s + seq![x]).filter(pred) == if pred(x) {
            s.filter(pred).push(x)
        } else {
            s.filter(pred)
        },
{
    reveal(Seq::filter);
    assert((s + seq![x]).drop_last() =~= s);
    assert((s + seq![x]).last() == x);
}

/// Every rule in a listing carries the marker prefix.
pub proof fn lemma_listing_all_marked(s: Seq<FwRule>)
    ensures
        forall|i: int|
            0 <= i < spec_listing(s).len() ==> has_marker(#[trigger] spec_listing(s)[i].name@),
{
    broadcast use vstd::multiset::group_multiset_axioms;

    let f = s.filter(marked());
    let r = spec_listing(s);
    lemma_sort_rules_multiset(f);
    r.to_multiset_ensures();
    f.to_multiset_ensures();
    assert forall|i: int| 0 <= i < r.len() implies has_marker(r[i].name@) by {
        assert(r.contains(r[i]));
        assert(f.to_multiset().count(r[i]) > 0);
        assert(f.contains(r[i]));
        let j = choose|j: int| 0 <= j < f.len() && f[j] == r[i];
        s.lemma_filter_pred(marked(), j);
    }
}

/// The rules of a listing stand in non-descending order of
/// case-insensitive application name.
pub proof fn lemma_listing_sorted(s: Seq<FwRule>)
    ensures
        sorted_by(spec_listing(s), rule_order()),
{
    lemma_sort_rules_sorted(s.filter(marked()));
}

/// A listing holds exactly the marker-prefixed rules of its source,
/// with their multiplicities.
pub proof fn lemma_listing_permutes(s: Seq<FwRule>)
    ensures
        spec_listing(s).to_multiset() =~= s.filter(marked()).to_multiset(),
{
    lemma_sort_rules_multiset(s.filter(marked()));
}

/// Decides the rule order between two rules.
pub fn rule_le_exec(a: &FwRule, b: &FwRule) -> (r: bool)
    ensures
        r == rule_le(*a, *b),
{
    let la = to_lowercase(a.app_name.as_str());
    let lb = to_lowercase(b.app_name.as_str());
    lex_le_exec(la.as_str(), lb.as_str())
}

/// Keeps exactly the rules whose name carries the marker prefix, in
/// their original order.
pub fn keep_marked(rules: Vec<FwRule>) -> (r: Vec<FwRule>)
    ensures
        r@ == rules@.filter(marked()),
{
    let ghost orig = rules@;
    let mut work = rules;
    let mut out: Vec<FwRule> = Vec::new();
    let ghost mut k: int = 0;
    proof {
        assert(orig.take(0) =~= Seq::<FwRule>::empty());
        reveal(Seq::filter);
        assert(orig.take(0).filter(marked()) =~= Seq::<FwRule>::empty());
        assert(orig.skip(0) =~= orig);
    }
    while work.len() > 0
        invariant
            0 <= k <= orig.len(),
            work@ == orig.skip(k),
            out@ == orig.take(k).filter(marked()),
        decreases work.len(),
    {
        let x = work.remove(0);
        proof {
            assert(orig.skip(k)[0] == orig[k]);
            assert(orig.skip(k).remove(0) =~= orig.skip(k + 1));
        }
        let keep = crate::rule::name_has_marker(x.name.as_str());
        proof {
            lemma_filter_push(orig.take(k), x, marked());
            assert(orig.take(k + 1) =~= orig.take(k) + seq![x]);
        }
        if keep {
            out.push(x);
        }
        proof {
            k = k + 1;
        }
    }
    proof {
        assert(orig.take(k) =~= orig);
    }
    out
}

/// Sorts rules by case-insensitive application name with a stable
/// insertion sort; the result is exactly `sort_rules` of the input.
pub fn sorted_by_app_name(rules: Vec<FwRule>) -> (r: Vec<FwRule>)
    ensures
        r@ == sort_rules(rules@),
{
    let ghost orig = rules@;
    let mut work = rules;
    let mut out: Vec<FwRule> = Vec::new();
    let ghost mut k: int = 0;
    proof {
        assert(orig.take(0) =~= Seq::<FwRule>::empty());
        assert(orig.skip(0) =~= orig);
        lemma_sort_rules_sorted(orig.take(0));
    }
    while work.len() > 0
        invariant
            0 <= k <= orig.len(),
            work@ == orig.skip(k),
            out@ == sort_rules(orig.take(k)),
            sorted_by(out@, rule_order()),
        decreases work.len(),
    {
        let x = work.remove(0);
        proof {
            assert(orig.skip(k)[0] == orig[k]);
            assert(orig.skip(k).remove(0) =~= orig.skip(k + 1));
        }
        let mut pos: usize = out.len();
        loop
            invariant
                pos <= out@.len(),
                sorted_by(out@, rule_order()),
                forall|j: int| pos <= j < out@.len() ==> !rule_le(#[trigger] out@[j], x),
            ensures
                pos <= out@.len(),
                forall|j: int| pos <= j < out@.len() ==> !rule_le(#[trigger] out@[j], x),
                pos > 0 ==> rule_le(out@[pos - 1], x),
            decreases pos,
        {
            if pos == 0 {
                break;
            }
            if rule_le_exec(&out[pos - 1], &x) {
                break;
            }
            pos -= 1;
        }
        proof {
            assert forall|j: int| 0 <= j < pos implies rule_le(#[trigger] out@[j], x) by {
                if j < pos - 1 {
                    assert(rule_order()(out@[j], out@[pos - 1]));
                    lemma_rule_le_trans(out@[j], out@[pos - 1], x);
                }
            }
            lemma_insert_le_at(x, out@, pos as int);
            lemma_insert_le_sorted(x, out@);
            assert(orig.take(k + 1).drop_last() =~= orig.take(k));
            assert(orig.take(k + 1).last() == orig[k]);
        }
        out.insert(pos, x);
        proof {
            k = k + 1;
        }
    }
    proof {
        assert(orig.take(k) =~= orig);
    }
    out
}

/// The listing operation on an already fetched rule set: keep the
/// marker-prefixed rules and order them by case-insensitive
/// application name.
pub fn select_rules(rules: Vec<FwRule>) -> (r: Vec<FwRule>)
    ensures
        r@ == spec_listing(rules@),
{
    sorted_by_app_name(keep_marked(rules))
}

/// Presents the outcome of an enumeration of the rule store: a failed
/// enumeration is shown as the empty listing, a successful one as the
/// listing of the fetched rules. Reporting the error message itself is
/// the shell's business.
pub fn listing_of_fetch(fetched: Result<Vec<FwRule>, String>) -> (r: Vec<FwRule>)
    ensures
        r@ == (match fetched {
            Ok(rules) => spec_listing(rules@),
            Err(_) => Seq::<FwRule>::empty(),
        }),
{
    match fetched {
        Ok(rules) => select_rules(rules),
        Err(_) => Vec::new(),
    }
}

} // verus!
