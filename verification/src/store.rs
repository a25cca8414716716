//! An in-memory rule store with the semantics the shell expects of the
//! OS firewall store: list, enable, disable, delete and create, with
//! the empty-string-means-success status convention.

use vstd::prelude::*;
use crate::rule::{FwRule, is_generated_rule, new_rule};
use crate::listing::{spec_listing, select_rules, lemma_filter_push};
use crate::text::str_eq;

verus! {

/// The message returned when no stored rule bears the requested name.
pub open spec fn not_found_text() -> Seq<char> {
    "no rule with this name"@
}

/// The not-found message signals failure visibly: it is never empty.
pub proof fn lemma_not_found_text_nonempty()
    ensures
        not_found_text().len() > 0,
{
    reveal_strlit("no rule with this name");
}

/// Whether some rule in `s` bears the given name.
pub open spec fn contains_name(s: Seq<FwRule>, name: Seq<char>) -> bool {
    exists|i: int| 0 <= i < s.len() && s[i].name@ == name
}

/// The store content after setting the enabled flag of every rule
/// bearing the name to `value`.
pub open spec fn spec_set_enabled(s: Seq<FwRule>, name: Seq<char>, value: bool) -> Seq<FwRule> {
    s.map(
        |i: int, r: FwRule|
            if r.name@ == name {
                FwRule { enabled: value, ..r }
            } else {
                r
            },
    )
}

/// The predicate a rule must satisfy to survive deleting `name`.
pub open spec fn keeps(name: Seq<char>) -> spec_fn(FwRule) -> bool {
    |r: FwRule| r.name@ != name
}

/// The store content after deleting every rule bearing the name.
pub open spec fn spec_delete(s: Seq<FwRule>, name: Seq<char>) -> Seq<FwRule> {
    s.filter(keeps(name))
}

/// Setting the enabled flag touches exactly the rules bearing the
/// name; every other rule is kept as it was.
pub proof fn lemma_set_enabled_effect(s: Seq<FwRule>, name: Seq<char>, value: bool)
    ensures
        spec_set_enabled(s, name, value).len() == s.len(),
        forall|j: int|
            0 <= j < s.len() && s[j].name@ == name ==> #[trigger] spec_set_enabled(
                s,
                name,
                value,
            )[j] == (FwRule { enabled: value, ..s[j] }),
        forall|j: int|
            0 <= j < s.len() && s[j].name@ != name ==> #[trigger] spec_set_enabled(
                s,
                name,
                value,
            )[j] == (s[j]),
{
}

/// After a delete, no rule bears the deleted name any more, and every
/// rule bearing another name is kept.
pub proof fn lemma_delete_effect(s: Seq<FwRule>, name: Seq<char>)
    ensures
        !contains_name(spec_delete(s, name), name),
        forall|r: FwRule|
            s.contains(r) && r.name@ != name ==> #[trigger] spec_delete(s, name).contains(r),
{
    let t = spec_delete(s, name);
    assert forall|i: int| 0 <= i < t.len() implies #[trigger] t[i].name@ != name by {
        s.lemma_filter_pred(keeps(name), i);
    }
    assert forall|r: FwRule| s.contains(r) && r.name@ != name implies #[trigger] t.contains(r) by {
        let j = choose|j: int| 0 <= j < s.len() && s[j] == r;
        s.lemma_filter_contains(keeps(name), j);
    }
}

/// A rule created by this system carries the marker prefix in its
/// name, so the listing of a store right after a create contains the
/// created rule.
pub proof fn lemma_created_rule_is_listed(s: Seq<FwRule>, r: FwRule, path: Seq<char>, is_out: bool)
    requires
        is_generated_rule(r, path, is_out),
    ensures
        spec_listing(s.push(r)).contains(r),
{
    broadcast use vstd::multiset::group_multiset_axioms;

    crate::rule::lemma_rule_name_has_marker(path, is_out);
    assert(crate::listing::marked()(r));
    lemma_filter_push(s, r, crate::listing::marked());
    assert(s.push(r) =~= s + seq![r]);
    let f = (s.push(r)).filter(crate::listing::marked());
    assert(f == s.filter(crate::listing::marked()).push(r));
    assert(f.contains(r)) by {
        assert(f[f.len() - 1] == r);
    }
    crate::listing::lemma_listing_permutes(s.push(r));
    f.to_multiset_ensures();
    spec_listing(s.push(r)).to_multiset_ensures();
    assert(f.to_multiset().count(r) > 0);
}

/// The in-memory rule store. Its view is the sequence of stored rules,
/// in insertion order.
pub struct RuleStore {
    rules: Vec<FwRule>,
}

impl View for RuleStore {
    type V = Seq<FwRule>;

    closed spec fn view(&self) -> Seq<FwRule> {
        self.rules@
    }
}

impl RuleStore {
    /// An empty store.
    pub fn new() -> (s: Self)
        ensures
            s@ == Seq::<FwRule>::empty(),
    {
        RuleStore { rules: Vec::new() }
    }

    /// A store holding the given rules, a fresh read-through of an
    /// enumeration source.
    pub fn from_rules(rules: Vec<FwRule>) -> (s: Self)
        ensures
            s@ == rules@,
    {
        RuleStore { rules }
    }

    /// How many rules the store holds.
    pub fn len(&self) -> (n: usize)
        ensures
            n == self@.len(),
    {
        self.rules.len()
    }

    /// Lists the marker-prefixed rules, ordered by case-insensitive
    /// application name. The store itself is unchanged.
    pub fn get_rules(&self) -> (r: Vec<FwRule>)
        ensures
            r@ == spec_listing(self@),
    {
        let mut copy: Vec<FwRule> = Vec::new();
        let mut i: usize = 0;
        proof {
            assert(self.rules@.take(0) =~= Seq::<FwRule>::empty());
        }
        while i < self.rules.len()
            invariant
                i <= self.rules@.len(),
                copy@ == self.rules@.take(i as int),
            decreases self.rules@.len() - i,
        {
            copy.push(self.rules[i].clone());
            proof {
                assert(self.rules@.take(i as int + 1) =~= self.rules@.take(i as int).push(
                    self.rules@[i as int],
                ));
            }
            i += 1;
        }
        proof {
            assert(self.rules@.take(self.rules@.len() as int) =~= self.rules@);
        }
        select_rules(copy)
    }

    /// Sets the enabled flag of every rule bearing the name, returning
    /// the empty status exactly when such a rule was present.
    fn set_enabled_by_name(&mut self, name: &str, value: bool) -> (status: String)
        ensures
            final(self)@ == spec_set_enabled(old(self)@, name@, value),
            contains_name(old(self)@, name@) <==> status@ == Seq::<char>::empty(),
            !contains_name(old(self)@, name@) ==> status@ == not_found_text(),
    {
        let ghost orig = self.rules@;
        let ghost target = spec_set_enabled(orig, name@, value);
        let mut found = false;
        let mut i: usize = 0;
        proof {
            assert(orig.take(0) =~= Seq::<FwRule>::empty());
        }
        while i < self.rules.len()
            invariant
                i <= orig.len(),
                self.rules@.len() == orig.len(),
                target == spec_set_enabled(orig, name@, value),
                forall|j: int| 0 <= j < i ==> self.rules@[j] == target[j],
                forall|j: int| i <= j < orig.len() ==> self.rules@[j] == orig[j],
                found == contains_name(orig.take(i as int), name@),
            decreases orig.len() - i,
        {
            let ghost pre = self.rules@;
            if str_eq(self.rules[i].name.as_str(), name) {
                let mut r = self.rules.remove(i);
                r.enabled = value;
                let ghost rv = r;
                self.rules.insert(i, r);
                found = true;
                proof {
                    assert(self.rules@ =~= pre.update(i as int, rv));
                    assert(rv == FwRule { enabled: value, ..orig[i as int] });
                }
            }
            proof {
                assert(orig.take(i as int + 1) =~= orig.take(i as int).push(orig[i as int]));
                if orig[i as int].name@ == name@ {
                    assert(contains_name(orig.take(i as int + 1), name@)) by {
                        assert(orig.take(i as int + 1)[i as int] == orig[i as int]);
                    }
                } else {
                    if contains_name(orig.take(i as int + 1), name@) {
                        let w = choose|w: int|
                            0 <= w < orig.take(i as int + 1).len() && (#[trigger] orig.take(
                                i as int + 1,
                            )[w]).name@ == name@;
                        assert(w < i as int + 1);
                        if w < i as int {
                            assert(orig.take(i as int)[w].name@ == name@);
                        }
                    }
                }
            }
            i += 1;
        }
        proof {
            assert(orig.take(orig.len() as int) =~= orig);
            assert(self.rules@ =~= target);
        }
        if found {
            String::new()
        } else {
            proof {
                lemma_not_found_text_nonempty();
            }
            "no rule with this name".to_owned()
        }
    }

    /// Enables the rules bearing the name. Returns the empty status
    /// exactly when such a rule was present; otherwise the store is
    /// unchanged except for the (empty) set of matching rules.
    pub fn enable_rule(&mut self, name: &str) -> (status: String)
        ensures
            final(self)@ == spec_set_enabled(old(self)@, name@, true),
            contains_name(old(self)@, name@) <==> status@ == Seq::<char>::empty(),
            !contains_name(old(self)@, name@) ==> status@ == not_found_text(),
    {
        self.set_enabled_by_name(name, true)
    }

    /// Disables the rules bearing the name, under the same status
    /// convention as `enable_rule`.
    pub fn disable_rule(&mut self, name: &str) -> (status: String)
        ensures
            final(self)@ == spec_set_enabled(old(self)@, name@, false),
            contains_name(old(self)@, name@) <==> status@ == Seq::<char>::empty(),
            !contains_name(old(self)@, name@) ==> status@ == not_found_text(),
    {
        self.set_enabled_by_name(name, false)
    }

    /// Deletes every rule bearing the name, returning the empty status
    /// exactly when such a rule was present.
    pub fn delete_rule(&mut self, name: &str) -> (status: String)
        ensures
            final(self)@ == spec_delete(old(self)@, name@),
            contains_name(old(self)@, name@) <==> status@ == Seq::<char>::empty(),
            !contains_name(old(self)@, name@) ==> status@ == not_found_text(),
    {
        let ghost orig = self.rules@;
        let mut found = false;
        let mut i: usize = 0;
        let ghost mut k: int = 0;
        proof {
            reveal(Seq::filter);
            assert(orig.take(0) =~= Seq::<FwRule>::empty());
            assert(orig.take(0).filter(keeps(name@)) =~= Seq::<FwRule>::empty());
            assert(orig.skip(0) =~= orig);
        }
        while i < self.rules.len()
            invariant
                0 <= k <= orig.len(),
                i as int == orig.take(k).filter(keeps(name@)).len(),
                self.rules@ == orig.take(k).filter(keeps(name@)) + orig.skip(k),
                found == contains_name(orig.take(k), name@),
            decreases orig.len() - k,
        {
            proof {
                assert(orig.skip(k).len() > 0);
                assert(self.rules@[i as int] == orig.skip(k)[0]);
                assert(orig.skip(k)[0] == orig[k]);
            }
            let ghost pre = self.rules@;
            if str_eq(self.rules[i].name.as_str(), name) {
                self.rules.remove(i);
                found = true;
                proof {
                    assert(self.rules@ =~= orig.take(k).filter(keeps(name@)) + orig.skip(k + 1));
                }
            } else {
                i += 1;
                proof {
                    assert(pre =~= orig.take(k).filter(keeps(name@)).push(orig[k]) + orig.skip(
                        k + 1,
                    ));
                }
            }
            proof {
                lemma_filter_push(orig.take(k), orig[k], keeps(name@));
                assert(orig.take(k + 1) =~= orig.take(k) + seq![orig[k]]);
                if orig[k].name@ == name@ {
                    assert(contains_name(orig.take(k + 1), name@)) by {
                        assert(orig.take(k + 1)[k] == orig[k]);
                    }
                } else {
                    if contains_name(orig.take(k + 1), name@) {
                        let w = choose|w: int|
                            0 <= w < orig.take(k + 1).len() && (#[trigger] orig.take(
                                k + 1,
                            )[w]).name@ == name@;
                        if w < k {
                            assert(orig.take(k)[w].name@ == name@);
                        }
                    }
                }
                k = k + 1;
            }
        }
        proof {
            assert(orig.skip(k).len() == 0);
            assert(k == orig.len());
            assert(orig.take(k) =~= orig);
            assert(self.rules@ =~= orig.filter(keeps(name@)));
        }
        if found {
            String::new()
        } else {
            proof {
                lemma_not_found_text_nonempty();
            }
            "no rule with this name".to_owned()
        }
    }

    /// Creates the block rule derived from the path and direction and
    /// appends it to the store; no duplicate check is made, matching
    /// the create operation's semantics.
    pub fn create_rule(&mut self, path: &str, is_out: bool) -> (status: String)
        ensures
            final(self)@.len() == old(self)@.len() + 1,
            final(self)@.drop_last() == old(self)@,
            is_generated_rule(final(self)@.last(), path@, is_out),
            status@ == Seq::<char>::empty(),
    {
        let r = new_rule(path, is_out);
        self.rules.push(r);
        proof {
            assert(self.rules@.drop_last() =~= old(self).rules@);
        }
        String::new()
    }
}

/// Folds an operation outcome into the status-string convention the
/// shell uses: the empty string on success, the message itself on
/// failure.
pub fn status_of_result(r: Result<(), String>) -> (status: String)
    ensures
        status@ == (match r {
            Ok(_) => Seq::<char>::empty(),
            Err(m) => m@,
        }),
{
    match r {
        Ok(()) => String::new(),
        Err(m) => m,
    }
}

} // verus!
