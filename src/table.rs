//! The rule table: rules by keyword, and an optional default rule.
use crate::rules::Rule;
use vstd::prelude::*;

verus! {

/// The map the entries spell, later entries shadowing earlier ones.
pub open spec fn entry_map(entries: Seq<(String, Rule)>) -> Map<Seq<char>, Rule>
    decreases entries.len(),
{
    if entries.len() == 0 {
        Map::empty()
    } else {
        entry_map(entries.drop_last()).insert(entries.last().0@, entries.last().1)
    }
}

/// Entries from `i` on that do not hold key `k` leave what the map says of `k` as it was.
proof fn lemma_entry_map_tail(entries: Seq<(String, Rule)>, i: int, k: Seq<char>)
    requires
        0 <= i <= entries.len(),
        forall|j: int| i <= j < entries.len() ==> (#[trigger] entries[j]).0@ != k,
    ensures
        entry_map(entries).contains_key(k) == entry_map(entries.take(i)).contains_key(k),
        entry_map(entries).contains_key(k) ==> entry_map(entries)[k] == entry_map(
            entries.take(i),
        )[k],
    decreases entries.len(),
{
    if i == entries.len() {
        assert(entries.take(i) =~= entries);
    } else {
        let init = entries.drop_last();
        assert(entries[entries.len() - 1] == entries.last());
        assert(init.take(i) =~= entries.take(i));
        lemma_entry_map_tail(init, i, k);
    }
}

/// Rules by keyword, with an optional default rule for the keywords that
/// have none. The entries are kept in the order they were inserted.
#[derive(Clone, Debug)]
pub struct RuleTable {
    entries: Vec<(String, Rule)>,
    default: Option<Rule>,
}

impl RuleTable {
    /// The rule of each keyword.
    pub closed spec fn keyword_rules(&self) -> Map<Seq<char>, Rule> {
        entry_map(self.entries@)
    }

    /// The rule for keywords that have none.
    pub closed spec fn fallback(&self) -> Option<Rule> {
        self.default
    }

    pub fn new() -> (t: RuleTable)
        ensures
            t.keyword_rules() == Map::<Seq<char>, Rule>::empty(),
            t.fallback() is None,
    {
        RuleTable { entries: Vec::new(), default: None }
    }

    /// Makes `rule` the rule of `kw`, in place of any earlier one.
    pub fn insert(&mut self, kw: &str, rule: Rule)
        ensures
            final(self).keyword_rules() == old(self).keyword_rules().insert(kw@, rule),
            final(self).fallback() == old(self).fallback(),
    {
        let ghost before = self.entries@;
        self.entries.push((kw.to_owned(), rule));
        assert(self.entries@.drop_last() =~= before);
    }

    /// Makes `rule` the default rule.
    pub fn set_default(&mut self, rule: Rule)
        ensures
            final(self).keyword_rules() == old(self).keyword_rules(),
            final(self).fallback() == Some(rule),
    {
        self.default = Some(rule);
    }

    /// The rule of `kw`, if it has one.
    pub fn get(&self, kw: &str) -> (r: Option<&Rule>)
        ensures
            match r {
                Some(rule) => self.keyword_rules().contains_key(kw@) && *rule
                    == self.keyword_rules()[kw@],
                None => !self.keyword_rules().contains_key(kw@),
            },
    {
        let k = kw.to_owned();
        let mut i: usize = self.entries.len();
        while i > 0
            invariant
                i <= self.entries@.len(),
                k@ == kw@,
                forall|j: int| i <= j < self.entries@.len() ==> (#[trigger] self.entries@[j]).0@ != kw@,
            decreases i,
        {
            if self.entries[i - 1].0 == k {
                proof {
                    lemma_entry_map_tail(self.entries@, i as int, kw@);
                    assert(self.entries@.take(i as int).drop_last() =~= self.entries@.take(i - 1));
                    assert(self.entries@.take(i as int).last() == self.entries@[i - 1]);
                }
                return Some(&self.entries[i - 1].1);
            }
            i = i - 1;
        }
        proof {
            lemma_entry_map_tail(self.entries@, 0, kw@);
            assert(self.entries@.take(0) =~= Seq::<(String, Rule)>::empty());
        }
        None
    }

    /// The default rule, if there is one.
    pub fn default_rule(&self) -> (r: Option<&Rule>)
        ensures
            match r {
                Some(rule) => self.fallback() == Some(*rule),
                None => self.fallback() is None,
            },
    {
        match &self.default {
            Some(rule) => Some(rule),
            None => None,
        }
    }
}

} // verus!
