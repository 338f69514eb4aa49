//! The rule table: alias (`name:identity-text`) and domain-suffix rules,
//! held sorted by suffix length descending so the longest, most specific
//! suffix is tried first; the first structurally matching rule wins.
//!
//! A suffix rule only matches when the suffix is directly preceded by a
//! dot-bounded segment that is a syntactically valid identity text; the
//! matched identity is the one that segment decodes to.

use vstd::prelude::*;

use crate::bytes_util::{
    bytes_subrange, ends_with, ends_with_bytes, find_byte, find_byte_at, lower, to_lower,
};
use crate::identity::{byte_vecs_equal, identity_of_text, text_of_identity, Identity};

verus! {

/// The byte `'.'`, which separates domain labels.
pub const DOT_BYTE: u8 = 46;

/// The byte `':'`, which separates an alias name from its identity text.
pub const COLON_BYTE: u8 = 58;

/// Mathematical model of one resolution rule: a domain (lower-cased), and
/// for an alias rule the identity bytes it maps to.
pub struct RuleV {
    pub domain: Seq<u8>,
    pub alias_id: Option<Seq<u8>>,
}

/// Start of the dot-bounded segment that ends just before index `cut`:
/// the index right after the previous dot, or the start of the string.
pub open spec fn seg_start(name: Seq<u8>, cut: int) -> int
    decreases cut,
{
    if cut <= 0 {
        0
    } else if name[cut - 1] == DOT_BYTE {
        cut
    } else {
        seg_start(name, cut - 1)
    }
}

/// The dot-bounded segment that ends just before index `cut`.
pub open spec fn preceding_segment(name: Seq<u8>, cut: int) -> Seq<u8> {
    name.subrange(seg_start(name, cut), cut)
}

/// A suffix rule with domain `suffix` matches `name` when `name` ends with
/// `.suffix` and the segment directly before that dot is a valid identity
/// text.
pub open spec fn suffix_matches(suffix: Seq<u8>, name: Seq<u8>) -> bool {
    &&& name.len() > suffix.len()
    &&& name[name.len() - suffix.len() - 1] == DOT_BYTE
    &&& ends_with(name, suffix)
    &&& identity_of_text(preceding_segment(name, name.len() - suffix.len() - 1)) is Some
}

/// The identity a matching suffix rule resolves to.
pub open spec fn suffix_result(suffix: Seq<u8>, name: Seq<u8>) -> Seq<u8> {
    identity_of_text(preceding_segment(name, name.len() - suffix.len() - 1)).unwrap()
}

/// Whether a rule structurally matches a (lower-cased) name.
pub open spec fn rule_matches(r: RuleV, name: Seq<u8>) -> bool {
    match r.alias_id {
        Some(_) => r.domain == name,
        None => suffix_matches(r.domain, name),
    }
}

/// The identity bytes a matching rule resolves to.
pub open spec fn rule_result(r: RuleV, name: Seq<u8>) -> Seq<u8> {
    match r.alias_id {
        Some(id) => id,
        None => suffix_result(r.domain, name),
    }
}

/// First-match lookup over an ordered rule sequence.
pub open spec fn table_lookup(rules: Seq<RuleV>, name: Seq<u8>) -> Option<Seq<u8>>
    decreases rules.len(),
{
    if rules.len() == 0 {
        None
    } else if rule_matches(rules[0], name) {
        Some(rule_result(rules[0], name))
    } else {
        table_lookup(rules.skip(1), name)
    }
}

/// Rules ordered by domain length, longest first.
pub open spec fn sorted_desc(rules: Seq<RuleV>) -> bool {
    forall|i: int, j: int|
        0 <= i < j < rules.len() ==> (#[trigger] rules[i].domain).len()
            >= (#[trigger] rules[j].domain).len()
}

/// The first index whose rule has a domain strictly shorter than `len`, or
/// the end of the sequence.
pub open spec fn first_shorter(rules: Seq<RuleV>, len: nat) -> int
    decreases rules.len(),
{
    if rules.len() == 0 {
        0
    } else if rules[0].domain.len() < len {
        0
    } else {
        1 + first_shorter(rules.skip(1), len)
    }
}

/// `first_shorter` is in range, everything before it is at least `len`
/// long, and what it points at (if anything) is shorter.
pub proof fn lemma_first_shorter(rules: Seq<RuleV>, len: nat)
    ensures
        0 <= first_shorter(rules, len) <= rules.len(),
        forall|j: int|
            0 <= j < first_shorter(rules, len) ==> (#[trigger] rules[j]).domain.len() >= len,
        first_shorter(rules, len) < rules.len() ==> rules[first_shorter(rules, len)].domain.len()
            < len,
    decreases rules.len(),
{
    if rules.len() > 0 && rules[0].domain.len() >= len {
        lemma_first_shorter(rules.skip(1), len);
        let fs = first_shorter(rules, len);
        assert forall|j: int| 0 <= j < fs implies (#[trigger] rules[j]).domain.len() >= len by {
            if j >= 1 {
                assert(rules.skip(1)[j - 1] == rules[j]);
            }
        }
        if fs < rules.len() {
            assert(rules.skip(1)[fs - 1] == rules[fs]);
        }
    }
}

/// Insert one rule after every rule whose domain is at least as long and
/// before every strictly shorter one.
pub open spec fn insert_rule(rules: Seq<RuleV>, r: RuleV) -> Seq<RuleV>
    decreases rules.len(),
{
    if rules.len() == 0 {
        seq![r]
    } else if rules[0].domain.len() >= r.domain.len() {
        seq![rules[0]] + insert_rule(rules.skip(1), r)
    } else {
        seq![r] + rules
    }
}

/// `insert_rule` places the rule exactly at the first strictly shorter
/// domain.
pub proof fn lemma_insert_rule_splits(rules: Seq<RuleV>, r: RuleV, k: int)
    requires
        0 <= k <= rules.len(),
        forall|j: int| 0 <= j < k ==> (#[trigger] rules[j]).domain.len() >= r.domain.len(),
        k < rules.len() ==> rules[k].domain.len() < r.domain.len(),
    ensures
        insert_rule(rules, r) == rules.insert(k, r),
    decreases k,
{
    if k == 0 {
        if rules.len() == 0 {
            assert(insert_rule(rules, r) =~= rules.insert(0, r));
        } else {
            assert(insert_rule(rules, r) =~= rules.insert(0, r));
        }
    } else {
        assert(rules[0].domain.len() >= r.domain.len());
        assert forall|j: int|
            0 <= j < k - 1 implies (#[trigger] rules.skip(1)[j]).domain.len()
            >= r.domain.len() by {
            assert(rules.skip(1)[j] == rules[j + 1]);
        }
        if k - 1 < rules.skip(1).len() {
            assert(rules.skip(1)[k - 1] == rules[k]);
        }
        lemma_insert_rule_splits(rules.skip(1), r, k - 1);
        assert(insert_rule(rules, r) =~= rules.insert(k, r));
    }
}

/// Law (stable ties): inserting into an ordered table keeps it ordered and
/// never reorders what is already there — the new rule lands after every
/// rule of equal or greater domain length and before every strictly shorter
/// one, so rules of equal domain length keep their insertion order.
pub proof fn lemma_insert_rule_props(rules: Seq<RuleV>, r: RuleV)
    requires
        sorted_desc(rules),
    ensures
        insert_rule(rules, r) == rules.insert(first_shorter(rules, r.domain.len()), r),
        sorted_desc(insert_rule(rules, r)),
        insert_rule(rules, r).to_multiset() == rules.to_multiset().insert(r),
{
    let len = r.domain.len();
    let k = first_shorter(rules, len);
    lemma_first_shorter(rules, len);
    lemma_insert_rule_splits(rules, r, k);
    let out = rules.insert(k, r);
    vstd::seq_lib::to_multiset_insert(rules, k, r);
    assert forall|i: int, j: int| 0 <= i < j < out.len() implies (#[trigger] out[i].domain).len()
        >= (#[trigger] out[j].domain).len() by {
        if i < k && j > k {
            assert(rules[i] == out[i]);
            assert(rules[j - 1] == out[j]);
        } else if i == k && j > k {
            assert(rules[j - 1] == out[j]);
            assert(rules[k] == out[j] || rules[k].domain.len() >= out[j].domain.len());
        } else if i < k && j == k {
            assert(rules[i] == out[i]);
        }
    }
}

/// The table a sequence of rules builds up to: each rule inserted, in input
/// order, by `insert_rule` — a stable sort by domain length descending.
pub open spec fn sorted_table(rules: Seq<RuleV>) -> Seq<RuleV>
    decreases rules.len(),
{
    if rules.len() == 0 {
        Seq::empty()
    } else {
        insert_rule(sorted_table(rules.drop_last()), rules.last())
    }
}

/// A built table is ordered and holds exactly the rules it was built from.
pub proof fn lemma_sorted_table_props(rules: Seq<RuleV>)
    ensures
        sorted_desc(sorted_table(rules)),
        sorted_table(rules).to_multiset() == rules.to_multiset(),
    decreases rules.len(),
{
    if rules.len() == 0 {
        assert(sorted_table(rules) =~= rules);
    } else {
        lemma_sorted_table_props(rules.drop_last());
        lemma_insert_rule_props(sorted_table(rules.drop_last()), rules.last());
        vstd::seq_lib::to_multiset_build(rules.drop_last(), rules.last());
        assert(rules.drop_last().push(rules.last()) =~= rules);
        assert(sorted_table(rules).to_multiset() == sorted_table(
            rules.drop_last(),
        ).to_multiset().insert(rules.last()));
        assert(rules.drop_last().to_multiset().insert(rules.last()) == rules.drop_last().push(
            rules.last(),
        ).to_multiset());
    }
}

/// What one resolution rule resolves an exact alias name or a suffix to.
pub enum RuleKind {
    Alias(Identity),
    Suffix,
}

/// One resolution rule.
pub struct Rule {
    pub domain: Vec<u8>,
    pub kind: RuleKind,
}

impl View for Rule {
    type V = RuleV;

    open spec fn view(&self) -> RuleV {
        RuleV {
            domain: self.domain@,
            alias_id: match self.kind {
                RuleKind::Alias(id) => Some(id@),
                RuleKind::Suffix => None,
            },
        }
    }
}

impl Rule {
    /// The domain is stored lower-cased, and an alias identity is well-formed.
    pub open spec fn wf(&self) -> bool {
        &&& lower(self.domain@) == self.domain@
        &&& match self.kind {
            RuleKind::Alias(id) => id.wf(),
            RuleKind::Suffix => true,
        }
    }

    /// A suffix rule for the given domain.
    pub fn new_suffix(domain: &[u8]) -> (r: Rule)
        ensures
            r@ == suffix_rule_v(domain@),
            r.wf(),
    {
        let d = to_lower(domain);
        proof {
            assert(lower(lower(domain@)) =~= lower(domain@));
        }
        Rule { domain: d, kind: RuleKind::Suffix }
    }

    /// An alias rule parsed from `name:identity-text`; rejects input with no
    /// separator or an identity text that does not decode.
    pub fn new_alias(alias: &[u8]) -> (r: Option<Rule>)
        ensures
            match r {
                Some(rule) => alias_rule_v(alias@) == Some(rule@) && rule.wf(),
                None => alias_rule_v(alias@) is None,
            },
    {
        match find_byte_at(alias, COLON_BYTE) {
            Some(i) => {
                let n: usize = alias.len();
                proof {
                    crate::bytes_util::lemma_find_byte(alias@, COLON_BYTE);
                    assert(0 <= i < alias@.len());
                }
                assert(i < n);
                let domain_part = bytes_subrange(alias, 0, i);
                let id_part = bytes_subrange(alias, i + 1, n);
                proof {
                    assert(id_part@ =~= alias@.skip(i + 1));
                    assert(domain_part@ =~= alias@.take(i as int));
                }
                match Identity::from_text(id_part.as_slice()) {
                    Some(id) => {
                        let d = to_lower(domain_part.as_slice());
                        proof {
                            assert(lower(lower(alias@.take(i as int))) =~= lower(
                                alias@.take(i as int),
                            ));
                        }
                        Some(Rule { domain: d, kind: RuleKind::Alias(id) })
                    },
                    None => None,
                }
            },
            None => None,
        }
    }

    /// Try this rule against an already lower-cased name.
    pub fn try_match(&self, name: &Vec<u8>) -> (r: Option<Identity>)
        requires
            self.wf(),
        ensures
            match r {
                Some(id) => rule_matches(self@, name@) && id@ == rule_result(self@, name@)
                    && id.wf(),
                None => !rule_matches(self@, name@),
            },
    {
        match &self.kind {
            RuleKind::Alias(id) => {
                if byte_vecs_equal(&self.domain, name) {
                    Some(id.clone())
                } else {
                    None
                }
            },
            RuleKind::Suffix => {
                let n: usize = name.len();
                let m: usize = self.domain.len();
                if n <= m {
                    return None;
                }
                let cut: usize = n - m - 1;
                if name[cut] != DOT_BYTE {
                    return None;
                }
                if !ends_with_bytes(name.as_slice(), self.domain.as_slice()) {
                    return None;
                }
                let mut j: usize = cut;
                while j > 0 && name[j - 1] != DOT_BYTE
                    invariant
                        0 <= j <= cut < name@.len(),
                        seg_start(name@, cut as int) == seg_start(name@, j as int),
                    decreases j,
                {
                    j = j - 1;
                }
                assert(seg_start(name@, cut as int) == j);
                let seg = bytes_subrange(name.as_slice(), j, cut);
                assert(seg@ == preceding_segment(name@, cut as int));
                match Identity::from_text(seg.as_slice()) {
                    Some(id) => Some(id),
                    None => None,
                }
            },
        }
    }
}

/// The model rule a suffix entry parses to.
pub open spec fn suffix_rule_v(s: Seq<u8>) -> RuleV {
    RuleV { domain: lower(s), alias_id: None }
}

/// The model rule an alias entry parses to, or `None` when malformed.
pub open spec fn alias_rule_v(s: Seq<u8>) -> Option<RuleV> {
    match find_byte(s, COLON_BYTE) {
        Some(i) => match identity_of_text(s.skip(i + 1)) {
            Some(id) => Some(RuleV { domain: lower(s.take(i)), alias_id: Some(id) }),
            None => None,
        },
        None => None,
    }
}

/// The rules a configuration parses to, suffixes first, in input order.
pub open spec fn parsed_rules(aliases: Seq<Seq<u8>>, suffixes: Seq<Seq<u8>>) -> Seq<RuleV> {
    suffixes.map_values(|s: Seq<u8>| suffix_rule_v(s)) + aliases.map_values(
        (|s: Seq<u8>| alias_rule_v(s).unwrap()),
    )
}

/// The process-lifetime table of resolution rules, ordered longest domain
/// first.
pub struct RuleTable {
    rules: Vec<Rule>,
}

impl View for RuleTable {
    type V = Seq<RuleV>;

    closed spec fn view(&self) -> Seq<RuleV> {
        self.rules@.map_values(|r: Rule| r@)
    }
}

impl RuleTable {
    /// Every rule held by the table is well-formed.
    pub closed spec fn rules_wf(&self) -> bool {
        forall|i: int| 0 <= i < self.rules@.len() ==> (#[trigger] self.rules@[i]).wf()
    }

    /// The table is sorted longest-first and every rule is well-formed.
    pub open spec fn wf(&self) -> bool {
        &&& sorted_desc(self@)
        &&& self.rules_wf()
    }

    /// How many rules the table holds.
    pub fn len(&self) -> (r: usize)
        ensures
            r == self@.len(),
    {
        self.rules.len()
    }

    /// Build the table from alias entries (`name:identity-text`) and domain
    /// suffixes; fails when an alias entry is malformed.
    pub fn new(aliases: &Vec<Vec<u8>>, suffixes: &Vec<Vec<u8>>) -> (r: Option<RuleTable>)
        ensures
            match r {
                Some(t) => {
                    &&& t.wf()
                    &&& t@ == sorted_table(
                        parsed_rules(
                            aliases@.map_values(|v: Vec<u8>| v@),
                            suffixes@.map_values(|v: Vec<u8>| v@),
                        ),
                    )
                    &&& t@.to_multiset() == parsed_rules(
                        aliases@.map_values(|v: Vec<u8>| v@),
                        suffixes@.map_values(|v: Vec<u8>| v@),
                    ).to_multiset()
                    &&& forall|i: int|
                        0 <= i < aliases@.len() ==> alias_rule_v(
                            (#[trigger] aliases@[i])@,
                        ) is Some
                },
                None => exists|i: int|
                    0 <= i < aliases@.len() && alias_rule_v((#[trigger] aliases@[i])@) is None,
            },
    {
        let ghost alias_views: Seq<Seq<u8>> = aliases@.map_values(|v: Vec<u8>| v@);
        let ghost suffix_views: Seq<Seq<u8>> = suffixes@.map_values(|v: Vec<u8>| v@);
        let mut table = RuleTable { rules: Vec::new() };
        proof {
            assert(suffix_views.take(0).map_values(|s: Seq<u8>| suffix_rule_v(s)) =~= Seq::<
                RuleV,
            >::empty());
            assert(table@ =~= sorted_table(
                suffix_views.take(0).map_values(|s: Seq<u8>| suffix_rule_v(s)),
            ));
        }
        let ns: usize = suffixes.len();
        for k in 0..ns
            invariant
                ns == suffixes@.len(),
                suffix_views == suffixes@.map_values(|v: Vec<u8>| v@),
                table.wf(),
                table@ == sorted_table(
                    suffix_views.take(k as int).map_values(|s: Seq<u8>| suffix_rule_v(s)),
                ),
        {
            let rule = Rule::new_suffix(suffixes[k].as_slice());
            let ghost prefix = suffix_views.take(k as int).map_values(
                (|s: Seq<u8>| suffix_rule_v(s)),
            );
            table.insert_sorted(rule);
            proof {
                let stepped = suffix_views.take(k + 1).map_values(|s: Seq<u8>| suffix_rule_v(s));
                assert(stepped =~= prefix.push(suffix_rule_v(suffix_views[k as int])));
                assert(stepped.drop_last() =~= prefix);
                assert(table@ == sorted_table(stepped));
            }
        }
        let ghost suffix_part: Seq<RuleV> = suffix_views.map_values(
            (|s: Seq<u8>| suffix_rule_v(s)),
        );
        proof {
            assert(suffix_views.take(ns as int) =~= suffix_views);
            assert(parsed_rules(alias_views.take(0), suffix_views) =~= suffix_part);
        }
        let na: usize = aliases.len();
        for k in 0..na
            invariant
                na == aliases@.len(),
                alias_views == aliases@.map_values(|v: Vec<u8>| v@),
                suffix_views == suffixes@.map_values(|v: Vec<u8>| v@),
                table.wf(),
                forall|i: int| 0 <= i < k ==> alias_rule_v(#[trigger] alias_views[i]) is Some,
                table@ == sorted_table(parsed_rules(alias_views.take(k as int), suffix_views)),
        {
            match Rule::new_alias(aliases[k].as_slice()) {
                Some(rule) => {
                    let ghost prefix = parsed_rules(alias_views.take(k as int), suffix_views);
                    table.insert_sorted(rule);
                    proof {
                        assert(alias_views[k as int] == aliases@[k as int]@);
                        let stepped = parsed_rules(alias_views.take(k + 1), suffix_views);
                        assert(stepped =~= prefix.push(
                            alias_rule_v(alias_views[k as int]).unwrap(),
                        ));
                        assert(stepped.drop_last() =~= prefix);
                        assert(table@ == sorted_table(stepped));
                    }
                },
                None => {
                    proof {
                        assert(alias_rule_v((aliases@[k as int])@) is None);
                    }
                    return None;
                },
            }
        }
        proof {
            assert(alias_views.take(na as int) =~= alias_views);
            assert forall|i: int| 0 <= i < aliases@.len() implies alias_rule_v(
                (#[trigger] aliases@[i])@,
            ) is Some by {
                assert(alias_views[i] == aliases@[i]@);
            }
            lemma_sorted_table_props(parsed_rules(alias_views, suffix_views));
        }
        Some(table)
    }

    /// Insert a rule before the first strictly shorter domain, keeping the
    /// table ordered and, among equal lengths, earlier insertions first.
    fn insert_sorted(&mut self, rule: Rule)
        requires
            old(self).wf(),
            rule.wf(),
        ensures
            final(self).wf(),
            final(self)@ == insert_rule(old(self)@, rule@),
    {
        let n: usize = self.rules.len();
        let mut k: usize = 0;
        while k < n && self.rules[k].domain.len() >= rule.domain.len()
            invariant
                n == self.rules@.len(),
                0 <= k <= n,
                forall|j: int|
                    0 <= j < k ==> (#[trigger] self.rules@[j])@.domain.len()
                        >= rule@.domain.len(),
            decreases n - k,
        {
            k = k + 1;
        }
        let ghost old_view: Seq<RuleV> = self@;
        proof {
            assert forall|j: int| 0 <= j < k implies (#[trigger] old_view[j]).domain.len()
                >= rule@.domain.len() by {
                assert(old_view[j] == self.rules@[j]@);
            }
            if k < n {
                assert(old_view[k as int] == self.rules@[k as int]@);
            }
            lemma_insert_rule_splits(old_view, rule@, k as int);
            lemma_insert_rule_props(old_view, rule@);
        }
        self.rules.insert(k, rule);
        proof {
            assert(self@ =~= old_view.insert(k as int, rule@));
        }
    }

    /// Look a (possibly mixed-case) name up in the table; the first rule in
    /// order that structurally matches decides the result.
    pub fn lookup_name(&self, name: &[u8]) -> (r: Option<Identity>)
        requires
            self.wf(),
        ensures
            match r {
                Some(id) => table_lookup(self@, lower(name@)) == Some(id@) && id.wf(),
                None => table_lookup(self@, lower(name@)) is None,
            },
    {
        let lowered = to_lower(name);
        let n: usize = self.rules.len();
        proof {
            assert(self@.skip(0) =~= self@);
        }
        for i in 0..n
            invariant
                self.wf(),
                n == self.rules@.len(),
                lowered@ == lower(name@),
                table_lookup(self@, lower(name@)) == table_lookup(
                    self@.skip(i as int),
                    lower(name@),
                ),
        {
            let ghost pre = self@.skip(i as int);
            proof {
                assert(pre[0] == self@[i as int]);
                assert(pre.skip(1) =~= self@.skip(i + 1));
            }
            match self.rules[i].try_match(&lowered) {
                Some(id) => {
                    return Some(id);
                },
                None => {
                },
            }
        }
        proof {
            assert(self@.skip(n as int) =~= Seq::<RuleV>::empty());
        }
        None
    }
}

/// The configuration text of one rule: `domain:identity-text` for an alias,
/// the bare domain for a suffix.
pub open spec fn rule_text(r: RuleV) -> Seq<u8> {
    match r.alias_id {
        Some(id) => r.domain + seq![COLON_BYTE] + text_of_identity(id),
        None => r.domain,
    }
}

/// The configuration texts of the alias rules among `rules`, in order.
pub open spec fn alias_texts(rules: Seq<RuleV>) -> Seq<Seq<u8>>
    decreases rules.len(),
{
    if rules.len() == 0 {
        Seq::empty()
    } else {
        (if rules[0].alias_id is Some {
            seq![rule_text(rules[0])]
        } else {
            Seq::empty()
        }) + alias_texts(rules.skip(1))
    }
}

/// The configuration texts of the suffix rules among `rules`, in order.
pub open spec fn suffix_texts(rules: Seq<RuleV>) -> Seq<Seq<u8>>
    decreases rules.len(),
{
    if rules.len() == 0 {
        Seq::empty()
    } else {
        (if rules[0].alias_id is None {
            seq![rule_text(rules[0])]
        } else {
            Seq::empty()
        }) + suffix_texts(rules.skip(1))
    }
}

proof fn lemma_texts_snoc(rules: Seq<RuleV>, r: RuleV)
    ensures
        alias_texts(rules.push(r)) == alias_texts(rules) + (if r.alias_id is Some {
            seq![rule_text(r)]
        } else {
            Seq::<Seq<u8>>::empty()
        }),
        suffix_texts(rules.push(r)) == suffix_texts(rules) + (if r.alias_id is None {
            seq![rule_text(r)]
        } else {
            Seq::<Seq<u8>>::empty()
        }),
    decreases rules.len(),
{
    let pushed = rules.push(r);
    if rules.len() == 0 {
        assert(pushed.skip(1) =~= Seq::<RuleV>::empty());
        assert(pushed[0] == r);
        assert(alias_texts(Seq::<RuleV>::empty()) == Seq::<Seq<u8>>::empty());
        assert(suffix_texts(Seq::<RuleV>::empty()) == Seq::<Seq<u8>>::empty());
        assert(alias_texts(pushed) =~= alias_texts(rules) + (if r.alias_id is Some {
            seq![rule_text(r)]
        } else {
            Seq::<Seq<u8>>::empty()
        }));
        assert(suffix_texts(pushed) =~= suffix_texts(rules) + (if r.alias_id is None {
            seq![rule_text(r)]
        } else {
            Seq::<Seq<u8>>::empty()
        }));
    } else {
        assert(pushed.skip(1) =~= rules.skip(1).push(r));
        assert(pushed[0] == rules[0]);
        lemma_texts_snoc(rules.skip(1), r);
        assert(alias_texts(pushed) == (if rules[0].alias_id is Some {
            seq![rule_text(rules[0])]
        } else {
            Seq::<Seq<u8>>::empty()
        }) + alias_texts(rules.skip(1).push(r)));
        assert(suffix_texts(pushed) == (if rules[0].alias_id is None {
            seq![rule_text(rules[0])]
        } else {
            Seq::<Seq<u8>>::empty()
        }) + suffix_texts(rules.skip(1).push(r)));
        assert(alias_texts(pushed) =~= alias_texts(rules) + (if r.alias_id is Some {
            seq![rule_text(r)]
        } else {
            Seq::<Seq<u8>>::empty()
        }));
        assert(suffix_texts(pushed) =~= suffix_texts(rules) + (if r.alias_id is None {
            seq![rule_text(r)]
        } else {
            Seq::<Seq<u8>>::empty()
        }));
    }
}

impl RuleTable {
    /// Export the table back to configuration text: the alias entries
    /// (`domain:identity-text`) and the suffix entries (bare domains), each
    /// in table order.
    pub fn alias_and_suffix_texts(&self) -> (r: (Vec<Vec<u8>>, Vec<Vec<u8>>))
        requires
            self.wf(),
        ensures
            r.0@.map_values(|v: Vec<u8>| v@) == alias_texts(self@),
            r.1@.map_values(|v: Vec<u8>| v@) == suffix_texts(self@),
    {
        let mut aliases: Vec<Vec<u8>> = Vec::new();
        let mut suffixes: Vec<Vec<u8>> = Vec::new();
        let n: usize = self.rules.len();
        proof {
            assert(self@.take(0) =~= Seq::<RuleV>::empty());
            assert(aliases@.map_values(|v: Vec<u8>| v@) =~= alias_texts(self@.take(0)));
            assert(suffixes@.map_values(|v: Vec<u8>| v@) =~= suffix_texts(self@.take(0)));
        }
        for i in 0..n
            invariant
                self.wf(),
                n == self.rules@.len(),
                aliases@.map_values(|v: Vec<u8>| v@) == alias_texts(self@.take(i as int)),
                suffixes@.map_values(|v: Vec<u8>| v@) == suffix_texts(self@.take(i as int)),
        {
            proof {
                assert(self@.take(i + 1) =~= self@.take(i as int).push(self@[i as int]));
                lemma_texts_snoc(self@.take(i as int), self@[i as int]);
            }
            let rule = &self.rules[i];
            match &rule.kind {
                RuleKind::Alias(id) => {
                    let mut text = crate::bytes_util::clone_bytes(&rule.domain);
                    text.push(COLON_BYTE);
                    let id_text = id.to_text();
                    text.extend_from_slice(id_text.as_slice());
                    proof {
                        assert(text@ =~= rule_text(self@[i as int]));
                    }
                    aliases.push(text);
                    proof {
                        assert(aliases@.map_values(|v: Vec<u8>| v@) =~= alias_texts(
                            self@.take(i + 1),
                        ));
                        assert(suffixes@.map_values(|v: Vec<u8>| v@) =~= suffix_texts(
                            self@.take(i + 1),
                        ));
                    }
                },
                RuleKind::Suffix => {
                    suffixes.push(crate::bytes_util::clone_bytes(&rule.domain));
                    proof {
                        assert(aliases@.map_values(|v: Vec<u8>| v@) =~= alias_texts(
                            self@.take(i + 1),
                        ));
                        assert(suffixes@.map_values(|v: Vec<u8>| v@) =~= suffix_texts(
                            self@.take(i + 1),
                        ));
                    }
                },
            }
        }
        proof {
            assert(self@.take(n as int) =~= self@);
        }
        (aliases, suffixes)
    }
}

/// Law: an alias rule present in an ordered table resolves its exact name to
/// its identity, provided no other alias in the table binds the same name to
/// a different identity. No suffix rule can pre-empt it: a suffix rule only
/// matches names strictly longer than its own domain, and every rule ordered
/// before the alias has a domain at least as long as the alias name.
pub proof fn lemma_alias_rule_resolves(rules: Seq<RuleV>, name: Seq<u8>, i: int)
    requires
        sorted_desc(rules),
        0 <= i < rules.len(),
        rules[i].alias_id is Some,
        rules[i].domain == name,
        forall|j: int|
            0 <= j < rules.len() && (#[trigger] rules[j]).alias_id is Some && rules[j].domain
                == name ==> rules[j].alias_id == rules[i].alias_id,
    ensures
        table_lookup(rules, name) == Some(rules[i].alias_id.unwrap()),
    decreases rules.len(),
{
    if rule_matches(rules[0], name) {
        match rules[0].alias_id {
            Some(_) => {
                assert(rules[0].domain == name);
                assert(rules[0].alias_id == rules[i].alias_id);
            },
            None => {
                assert(name.len() > rules[0].domain.len());
                assert(rules[0].domain.len() >= rules[i].domain.len());
                assert(false);
            },
        }
    } else {
        assert(i != 0);
        let rest = rules.skip(1);
        assert forall|a: int, b: int| 0 <= a < b < rest.len() implies (
        #[trigger] rest[a].domain).len() >= (#[trigger] rest[b].domain).len() by {
            assert(rest[a] == rules[a + 1]);
            assert(rest[b] == rules[b + 1]);
        }
        assert forall|j: int|
            0 <= j < rest.len() && (#[trigger] rest[j]).alias_id is Some && rest[j].domain
                == name implies rest[j].alias_id == rest[i - 1].alias_id by {
            assert(rest[j] == rules[j + 1]);
            assert(rest[i - 1] == rules[i]);
        }
        assert(rest[i - 1] == rules[i]);
        lemma_alias_rule_resolves(rest, name, i - 1);
    }
}

/// Law: lookup in an ordered table is longest-suffix-first. If some rule
/// matches a name, the result is decided by a matching rule whose domain is
/// at least as long as that of any matching rule.
pub proof fn lemma_longest_match_wins(rules: Seq<RuleV>, name: Seq<u8>, i: int)
    requires
        sorted_desc(rules),
        0 <= i < rules.len(),
        rule_matches(rules[i], name),
    ensures
        exists|k: int|
            0 <= k < rules.len() && rule_matches(#[trigger] rules[k], name) && rules[k].domain.len()
                >= rules[i].domain.len() && table_lookup(rules, name) == Some(
                rule_result(rules[k], name),
            ),
    decreases rules.len(),
{
    if rule_matches(rules[0], name) {
        assert(rules[0].domain.len() >= rules[i].domain.len());
    } else {
        assert(i != 0);
        let rest = rules.skip(1);
        assert forall|a: int, b: int| 0 <= a < b < rest.len() implies (
        #[trigger] rest[a].domain).len() >= (#[trigger] rest[b].domain).len() by {
            assert(rest[a] == rules[a + 1]);
            assert(rest[b] == rules[b + 1]);
        }
        assert(rest[i - 1] == rules[i]);
        lemma_longest_match_wins(rest, name, i - 1);
        let k = choose|k: int|
            0 <= k < rest.len() && rule_matches(#[trigger] rest[k], name) && rest[k].domain.len()
                >= rest[i - 1].domain.len() && table_lookup(rest, name) == Some(
                rule_result(rest[k], name),
            );
        assert(rest[k] == rules[k + 1]);
        assert(rule_matches(rules[k + 1], name) && rules[k + 1].domain.len()
            >= rules[i].domain.len() && table_lookup(rules, name) == Some(
            rule_result(rules[k + 1], name),
        ));
    }
}

} // verus!
