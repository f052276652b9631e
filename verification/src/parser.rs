//! Configuration and project tables: attribute weights, per-project scores,
//! the names of known projects, and a project's weighted total.

use vstd::prelude::*;

use crate::table::{
    SortedTable,
    entries_map,
    entry_texts,
    keys_of,
    keys_sorted,
    keys_unique,
    lemma_entries_map_dom,
    lemma_entries_map_insert,
    lemma_entries_map_unique,
    lemma_sorted_same_keys_equal,
    lemma_sorted_unique,
};
use crate::text::push_str;
use crate::units::{Score, Weight, mult_score_weight};

verus! {

/// Why a configuration or a project file was refused.
#[derive(Debug)]
pub enum ParseError {
    /// A project name that no project directory carries.
    ProjectNotFound(String),
    /// The project scores other attributes than the configuration weighs.
    AttributesMismatch,
    /// A weight outside `0..=100`.
    WeightOutOfRange,
    /// A score outside `1..=10`.
    ScoreOutOfRange,
    /// An attribute with no weight.
    MissingWeight,
}

/// The text of an error, as the user reads it.
pub open spec fn parse_error_text(e: ParseError) -> Seq<char> {
    match e {
        ParseError::ProjectNotFound(name) => "ProjectName "@ + name@ + " not found"@,
        ParseError::AttributesMismatch => "Attributes do not match"@,
        ParseError::WeightOutOfRange => "value must be 0..=100"@,
        ParseError::ScoreOutOfRange => "value must be 1..=10"@,
        ParseError::MissingWeight => "Should never happen: failed to get key"@,
    }
}

impl ParseError {
    /// The text of the error, as the user reads it.
    pub fn message(&self) -> (r: String)
        ensures
            r@ == parse_error_text(*self),
    {
        let mut r = String::new();
        match self {
            ParseError::ProjectNotFound(name) => {
                push_str(&mut r, "ProjectName ");
                push_str(&mut r, name.as_str());
                push_str(&mut r, " not found");
            },
            ParseError::AttributesMismatch => push_str(&mut r, "Attributes do not match"),
            ParseError::WeightOutOfRange => push_str(&mut r, "value must be 0..=100"),
            ParseError::ScoreOutOfRange => push_str(&mut r, "value must be 1..=10"),
            ParseError::MissingWeight => push_str(&mut r, "Should never happen: failed to get key"),
        }
        r
    }
}

/// The configuration file as read: attribute names and their weights.
pub struct ConfigToml {
    pub weights: SortedTable<i64>,
}

/// The `[info]` table of a project file as read.
pub struct InfoToml {
    pub description: String,
    pub repo_link: String,
    pub tags: Vec<String>,
    pub builds_on: Vec<String>,
}

/// A project file as read: its `[info]` table and its attribute scores.
pub struct ProjectToml {
    pub info: InfoToml,
    pub attributes: SortedTable<i64>,
}

/// Every value of the entries lies in `lo..=hi`.
pub open spec fn values_within(entries: Seq<(Seq<char>, i64)>, lo: int, hi: int) -> bool {
    forall|i: int| 0 <= i < entries.len() ==> lo <= #[trigger] entries[i].1 <= hi
}

/// Attribute weights, by attribute name in increasing order.
pub struct Config {
    weights: SortedTable<Weight>,
}

impl Config {
    /// The weights, by attribute name.
    pub closed spec fn spec_weights(self) -> SortedTable<Weight> {
        self.weights
    }

    /// The weights, by attribute name.
    pub fn weights(&self) -> (r: &SortedTable<Weight>)
        ensures
            *r == self.spec_weights(),
    {
        &self.weights
    }

    /// Checks every weight of the configuration file, in attribute order.
    pub fn parse(raw: ConfigToml) -> (r: Result<Config, ParseError>)
        ensures
            r is Ok <==> values_within(raw.weights.spec_entries(), 0, 100),
            r matches Ok(c) ==> {
                &&& c.spec_weights().spec_keys() == raw.weights.spec_keys()
                &&& forall|i: int| 0 <= i < raw.weights.spec_entries().len()
                    ==> (#[trigger] c.spec_weights().spec_entries()[i]).1.spec_value() == raw.weights.spec_entries()[i].1
            },
            r matches Err(e) ==> e is WeightOutOfRange,
    {
        let n = raw.weights.len();
        let mut ws: Vec<Weight> = Vec::new();
        let mut i: usize = 0;
        while i < n
            invariant
                n == raw.weights.spec_entries().len(),
                i <= n,
                ws.len() == i,
                forall|j: int| 0 <= j < i ==> 0 <= #[trigger] raw.weights.spec_entries()[j].1 <= 100,
                forall|j: int| 0 <= j < i ==> (#[trigger] ws@[j]).spec_value() == raw.weights.spec_entries()[j].1,
            decreases n - i,
        {
            let v: i64 = *raw.weights.value_at(i);
            match Weight::try_from(v) {
                Ok(w) => {
                    proof {
                        Weight::lemma_make(v as u8);
                    }
                    ws.push(w);
                },
                Err(_) => {
                    return Err(ParseError::WeightOutOfRange);
                },
            }
            i = i + 1;
        }
        let weights = raw.weights.with_values(ws);
        Ok(Config { weights })
    }

    /// Whether a project scores exactly the attributes that the configuration
    /// weighs, compared name by name in increasing order.
    pub fn validate(&self, attributes: &SortedTable<i64>) -> (r: Result<(), &'static str>)
        ensures
            r is Ok <==> self.spec_weights().spec_keys() == attributes.spec_keys(),
            r matches Err(e) ==> e@ == "Attributes do not match"@,
    {
        if !self.weights.same_keys(attributes) {
            return Err("Attributes do not match");
        }
        Ok(())
    }
}

/// Comparing the names in order, as `validate` does, tells whether both tables
/// name the same set of attributes.
pub proof fn lemma_same_keys_iff_same_names<V, W>(a: SortedTable<V>, b: SortedTable<W>)
    requires
        keys_sorted(a.spec_keys()),
        keys_sorted(b.spec_keys()),
    ensures
        (a.spec_keys() == b.spec_keys()) <==> (a.as_map().dom() == b.as_map().dom()),
{
    assert forall|k: Seq<char>| #[trigger] a.as_map().dom().contains(k) <==> a.spec_keys().contains(k) by {
        lemma_entries_map_dom(a.spec_entries(), k);
    }
    assert forall|k: Seq<char>| #[trigger] b.as_map().dom().contains(k) <==> b.spec_keys().contains(k) by {
        lemma_entries_map_dom(b.spec_entries(), k);
    }
    if a.as_map().dom() == b.as_map().dom() {
        assert forall|k: Seq<char>| a.spec_keys().contains(k) <==> b.spec_keys().contains(k) by {
            assert(a.as_map().dom().contains(k) == b.as_map().dom().contains(k));
        }
        lemma_sorted_same_keys_equal(a.spec_keys(), b.spec_keys());
    }
    if a.spec_keys() == b.spec_keys() {
        assert(a.as_map().dom() =~= b.as_map().dom());
    }
}

/// A project name that a project directory carries.
#[derive(Debug)]
pub struct ProjectName(String);

impl View for ProjectName {
    type V = Seq<char>;

    open spec fn view(&self) -> Seq<char> {
        self.spec_text()
    }
}

impl ProjectName {
    /// The name as text.
    pub closed spec fn spec_text(self) -> Seq<char> {
        self.0@
    }

    /// The name.
    pub fn as_str(&self) -> (r: &str)
        ensures
            r@ == self@,
    {
        self.0.as_str()
    }
}

/// The names of the known projects.
pub struct ProjectNames {
    names: SortedTable<()>,
}

impl ProjectNames {
    /// The set of known names.
    pub closed spec fn spec_names(self) -> Set<Seq<char>> {
        self.names.as_map().dom()
    }

    /// The set of the given names.
    pub fn new(names: Vec<String>) -> (r: ProjectNames)
        ensures
            forall|k: Seq<char>| #[trigger] r.spec_names().contains(k) <==> exists|i: int| 0 <= i < names.len() && names@[i]@ == k,
    {
        let mut entries: Vec<(String, ())> = Vec::new();
        for name in it: names
            invariant
                it.seq() == names@,
                entries.len() == it.index(),
                forall|j: int| 0 <= j < it.index() ==> #[trigger] entries@[j].0 == names@[j],
        {
            entries.push((name, ()));
        }
        let ghost es = entries@;
        let table = SortedTable::from_entries(entries);
        let r = ProjectNames { names: table };
        assert forall|k: Seq<char>| #[trigger] r.spec_names().contains(k) <==> exists|i: int| 0 <= i < names.len() && names@[i]@ == k by {
            lemma_entries_map_dom(entry_texts(es), k);
            if keys_of(entry_texts(es)).contains(k) {
                let i = choose|i: int| 0 <= i < keys_of(entry_texts(es)).len() && keys_of(entry_texts(es))[i] == k;
                assert(names@[i]@ == k);
            }
            if exists|i: int| 0 <= i < names.len() && names@[i]@ == k {
                let i = choose|i: int| 0 <= i < names.len() && names@[i]@ == k;
                assert(keys_of(entry_texts(es))[i] == k);
            }
        }
        r
    }

    /// Whether `name` is a known project name.
    pub fn contains(&self, name: &str) -> (r: bool)
        ensures
            r == self.spec_names().contains(name@),
    {
        self.names.contains_key(name)
    }

    /// The known project name `name`, or `ProjectNotFound` with it.
    pub fn mint(&self, name: &str) -> (r: Result<ProjectName, ParseError>)
        ensures
            r is Ok <==> self.spec_names().contains(name@),
            r matches Ok(p) ==> p@ == name@,
            r matches Err(e) ==> e matches ParseError::ProjectNotFound(s) && s@ == name@,
    {
        if self.names.contains_key(name) {
            return Ok(ProjectName(name.to_owned()));
        }
        Err(ParseError::ProjectNotFound(name.to_owned()))
    }
}

/// What a project says of itself.
#[derive(Debug)]
pub struct Info {
    description: String,
    repo_link: Option<String>,
    tags: Vec<String>,
    builds_on: Vec<ProjectName>,
}

impl Info {
    /// The description.
    pub closed spec fn spec_description(self) -> Seq<char> {
        self.description@
    }

    /// The repository link, absent where the file gave an empty one.
    pub closed spec fn spec_repo_link(self) -> Option<Seq<char>> {
        match self.repo_link {
            Some(l) => Some(l@),
            None => None,
        }
    }

    /// The tags.
    pub closed spec fn spec_tags(self) -> Seq<Seq<char>> {
        self.tags@.map_values(|t: String| t@)
    }

    /// The projects this one builds on.
    pub closed spec fn spec_builds_on(self) -> Seq<Seq<char>> {
        self.builds_on@.map_values(|p: ProjectName| p@)
    }

    /// The description.
    pub fn description(&self) -> (r: &str)
        ensures
            r@ == self.spec_description(),
    {
        self.description.as_str()
    }

    /// The repository link, if the project has one.
    pub fn repo_link(&self) -> (r: Option<&str>)
        ensures
            r matches Some(l) ==> self.spec_repo_link() == Some(l@),
            r is None ==> self.spec_repo_link() is None,
    {
        match &self.repo_link {
            Some(l) => Some(l.as_str()),
            None => None,
        }
    }

    /// The tags.
    pub fn tags(&self) -> (r: &Vec<String>)
        ensures
            r@.map_values(|t: String| t@) == self.spec_tags(),
    {
        &self.tags
    }

    /// The projects this one builds on.
    pub fn builds_on(&self) -> (r: &Vec<ProjectName>)
        ensures
            r@.map_values(|p: ProjectName| p@) == self.spec_builds_on(),
    {
        &self.builds_on
    }
}

/// The weighted sum of the scores: each score times the weight of its attribute.
pub open spec fn weighted_sum(entries: Seq<(Seq<char>, Score)>, weights: Map<Seq<char>, Weight>) -> int
    decreases entries.len(),
{
    if entries.len() == 0 {
        0
    } else {
        weighted_sum(entries.drop_last(), weights) + entries.last().1.spec_value() * weights[entries.last().0].spec_value()
    }
}

/// `x`, or the largest `u32` where `x` is larger.
pub open spec fn saturated(x: int) -> int {
    if x > u32::MAX {
        u32::MAX as int
    } else {
        x
    }
}

/// Every name of the list is a known one.
pub open spec fn all_known(names: Set<Seq<char>>, list: Seq<Seq<char>>) -> bool {
    forall|i: int| 0 <= i < list.len() ==> names.contains(#[trigger] list[i])
}

/// `i` is the first name of the list that is not known.
pub open spec fn first_unknown(names: Set<Seq<char>>, list: Seq<Seq<char>>, i: int) -> bool {
    &&& 0 <= i < list.len()
    &&& !names.contains(list[i])
    &&& all_known(names, list.take(i))
}

/// The weighted sum of two runs of entries is the sum of theirs.
pub proof fn lemma_weighted_sum_concat(
    a: Seq<(Seq<char>, Score)>,
    b: Seq<(Seq<char>, Score)>,
    weights: Map<Seq<char>, Weight>,
)
    ensures
        weighted_sum(a + b, weights) == weighted_sum(a, weights) + weighted_sum(b, weights),
    decreases b.len(),
{
    if b.len() == 0 {
        assert(a + b =~= a);
    } else {
        lemma_weighted_sum_concat(a, b.drop_last(), weights);
        assert((a + b).drop_last() =~= a + b.drop_last());
        assert((a + b).last() == b.last());
    }
}

/// A weighted sum is never negative.
pub proof fn lemma_weighted_sum_nonnegative(s: Seq<(Seq<char>, Score)>, weights: Map<Seq<char>, Weight>)
    ensures
        weighted_sum(s, weights) >= 0,
    decreases s.len(),
{
    if s.len() > 0 {
        lemma_weighted_sum_nonnegative(s.drop_last(), weights);
        let x = s.last().1.spec_value();
        let w = weights[s.last().0].spec_value();
        assert(x * w >= 0) by (nonlinear_arith)
            requires
                x >= 0,
                w >= 0,
        ;
    }
}

/// Entries without repeated keys that describe the same map have the same
/// weighted sum, whatever their order.
pub proof fn lemma_weighted_sum_same_map(
    s: Seq<(Seq<char>, Score)>,
    t: Seq<(Seq<char>, Score)>,
    weights: Map<Seq<char>, Weight>,
)
    requires
        keys_unique(keys_of(s)),
        keys_unique(keys_of(t)),
        entries_map(s) == entries_map(t),
    ensures
        weighted_sum(s, weights) == weighted_sum(t, weights),
    decreases s.len(),
{
    lemma_entries_map_unique(s);
    lemma_entries_map_unique(t);
    if s.len() == 0 {
        if t.len() > 0 {
            assert(entries_map(t).dom().contains(t[0].0));
            assert(entries_map(s).dom().contains(t[0].0));
        }
        assert(t.len() == 0);
    } else {
        let n = s.len() - 1;
        let e = s[n];
        assert(s.last() == e);
        assert(entries_map(s).dom().contains(e.0));
        assert(entries_map(t).dom().contains(e.0));
        let j = choose|j: int| 0 <= j < t.len() && t[j].0 == e.0;
        assert(entries_map(t)[t[j].0] == t[j].1);
        assert(entries_map(s)[s[n].0] == s[n].1);
        assert(t[j] == e);
        let s2 = s.drop_last();
        let t2 = t.remove(j);
        assert forall|x: int, y: int| 0 <= x < keys_of(s2).len() && 0 <= y < keys_of(s2).len() && x != y implies #[trigger] keys_of(s2)[x] != #[trigger] keys_of(s2)[y] by {
            assert(keys_of(s2)[x] == keys_of(s)[x] && keys_of(s2)[y] == keys_of(s)[y]);
        }
        assert forall|x: int, y: int| 0 <= x < keys_of(t2).len() && 0 <= y < keys_of(t2).len() && x != y implies #[trigger] keys_of(t2)[x] != #[trigger] keys_of(t2)[y] by {
            let x0 = if x < j { x } else { x + 1 };
            let y0 = if y < j { y } else { y + 1 };
            assert(keys_of(t2)[x] == keys_of(t)[x0] && keys_of(t2)[y] == keys_of(t)[y0]);
        }
        assert(!keys_of(s2).contains(e.0)) by {
            if keys_of(s2).contains(e.0) {
                let x = choose|x: int| 0 <= x < keys_of(s2).len() && keys_of(s2)[x] == e.0;
                assert(keys_of(s)[x] == keys_of(s)[n]);
            }
        }
        assert(!keys_of(t2).contains(e.0)) by {
            if keys_of(t2).contains(e.0) {
                let x = choose|x: int| 0 <= x < keys_of(t2).len() && keys_of(t2)[x] == e.0;
                let x0 = if x < j { x } else { x + 1 };
                assert(keys_of(t)[x0] == keys_of(t)[j]);
            }
        }
        assert(s2.insert(n, e) =~= s);
        assert(t2.insert(j, e) =~= t);
        lemma_entries_map_insert(s2, n, e.0, e.1);
        lemma_entries_map_insert(t2, j, e.0, e.1);
        lemma_entries_map_dom(s2, e.0);
        lemma_entries_map_dom(t2, e.0);
        assert(entries_map(s2) =~= entries_map(s).remove(e.0));
        assert(entries_map(t2) =~= entries_map(t).remove(e.0));
        lemma_weighted_sum_same_map(s2, t2, weights);
        let front = t.take(j);
        let back = t.skip(j + 1);
        assert(t =~= front + seq![e] + back);
        assert(t2 =~= front + back);
        lemma_weighted_sum_concat(front + seq![e], back, weights);
        lemma_weighted_sum_concat(front, seq![e], weights);
        lemma_weighted_sum_concat(front, back, weights);
        assert(seq![e].drop_last() =~= Seq::<(Seq<char>, Score)>::empty());
        assert(seq![e].last() == e);
        assert(weighted_sum(Seq::<(Seq<char>, Score)>::empty(), weights) == 0);
        assert(weighted_sum(seq![e], weights) == e.1.spec_value() * weights[e.0].spec_value());
        assert(weighted_sum(s, weights) == weighted_sum(s2, weights) + e.1.spec_value() * weights[e.0].spec_value());
        assert(weighted_sum(t, weights) == weighted_sum(front + seq![e], weights) + weighted_sum(back, weights));
        assert(weighted_sum(t2, weights) == weighted_sum(front, weights) + weighted_sum(back, weights));
    }
}

/// A project's total is additive: the attributes of two tables with no
/// attribute in common, taken together, weigh the sum of what each weighs;
/// where that sum fits in a `u32`, so do the saturated totals.
pub proof fn lemma_score_additive(
    a: SortedTable<Score>,
    b: SortedTable<Score>,
    both: SortedTable<Score>,
    weights: Map<Seq<char>, Weight>,
)
    requires
        keys_sorted(a.spec_keys()),
        keys_sorted(b.spec_keys()),
        keys_sorted(both.spec_keys()),
        a.as_map().dom().disjoint(b.as_map().dom()),
        both.as_map() == a.as_map().union_prefer_right(b.as_map()),
    ensures
        weighted_sum(both.spec_entries(), weights) == weighted_sum(a.spec_entries(), weights)
            + weighted_sum(b.spec_entries(), weights),
        weighted_sum(a.spec_entries(), weights) + weighted_sum(b.spec_entries(), weights) <= u32::MAX
            ==> saturated(weighted_sum(both.spec_entries(), weights)) == saturated(
            weighted_sum(a.spec_entries(), weights),
        ) + saturated(weighted_sum(b.spec_entries(), weights)),
{
    let sa = a.spec_entries();
    let sb = b.spec_entries();
    let s = sa + sb;
    lemma_sorted_unique(a.spec_keys());
    lemma_sorted_unique(b.spec_keys());
    lemma_sorted_unique(both.spec_keys());
    lemma_entries_map_unique(sa);
    lemma_entries_map_unique(sb);
    assert forall|x: int, y: int| 0 <= x < keys_of(s).len() && 0 <= y < keys_of(s).len() && x != y implies #[trigger] keys_of(s)[x] != #[trigger] keys_of(s)[y] by {
        if x < sa.len() && y < sa.len() {
            assert(keys_of(s)[x] == keys_of(sa)[x] && keys_of(s)[y] == keys_of(sa)[y]);
        } else if x >= sa.len() && y >= sa.len() {
            assert(keys_of(s)[x] == keys_of(sb)[x - sa.len()] && keys_of(s)[y] == keys_of(sb)[y - sa.len()]);
        } else if x < sa.len() {
            assert(keys_of(s)[x] == sa[x].0);
            assert(keys_of(s)[y] == sb[y - sa.len()].0);
            assert(a.as_map().dom().contains(sa[x].0));
            assert(b.as_map().dom().contains(sb[y - sa.len()].0));
        } else {
            assert(keys_of(s)[y] == sa[y].0);
            assert(keys_of(s)[x] == sb[x - sa.len()].0);
            assert(a.as_map().dom().contains(sa[y].0));
            assert(b.as_map().dom().contains(sb[x - sa.len()].0));
        }
    }
    lemma_entries_map_unique(s);
    let m = a.as_map().union_prefer_right(b.as_map());
    assert forall|k: Seq<char>| entries_map(s).dom().contains(k) <==> m.dom().contains(k) by {
        if exists|j: int| 0 <= j < s.len() && s[j].0 == k {
            let j = choose|j: int| 0 <= j < s.len() && s[j].0 == k;
            if j < sa.len() {
                assert(sa[j].0 == k);
            } else {
                assert(sb[j - sa.len()].0 == k);
            }
        }
        if a.as_map().dom().contains(k) {
            let j = choose|j: int| 0 <= j < sa.len() && sa[j].0 == k;
            assert(s[j].0 == k);
        }
        if b.as_map().dom().contains(k) {
            let j = choose|j: int| 0 <= j < sb.len() && sb[j].0 == k;
            assert(s[j + sa.len()].0 == k);
        }
    }
    assert forall|k: Seq<char>| entries_map(s).dom().contains(k) implies entries_map(s)[k] == m[k] by {
        let j = choose|j: int| 0 <= j < s.len() && s[j].0 == k;
        assert(entries_map(s)[s[j].0] == s[j].1);
        if j < sa.len() {
            assert(s[j] == sa[j]);
            assert(a.as_map()[sa[j].0] == sa[j].1);
            assert(a.as_map().dom().contains(k));
            assert(!b.as_map().dom().contains(k));
        } else {
            assert(s[j] == sb[j - sa.len()]);
            assert(b.as_map()[sb[j - sa.len()].0] == sb[j - sa.len()].1);
        }
    }
    assert(entries_map(s) =~= m);
    lemma_weighted_sum_same_map(both.spec_entries(), s, weights);
    lemma_weighted_sum_concat(sa, sb, weights);
    lemma_weighted_sum_nonnegative(sa, weights);
    lemma_weighted_sum_nonnegative(sb, weights);
}

/// Raising scores never lowers the weighted sum.
pub proof fn lemma_weighted_sum_monotonic(
    s: Seq<(Seq<char>, Score)>,
    t: Seq<(Seq<char>, Score)>,
    weights: Map<Seq<char>, Weight>,
)
    requires
        s.len() == t.len(),
        forall|i: int| 0 <= i < s.len() ==> (#[trigger] s[i]).0 == t[i].0,
        forall|i: int| 0 <= i < s.len() ==> (#[trigger] s[i]).1.spec_value() <= t[i].1.spec_value(),
    ensures
        weighted_sum(s, weights) <= weighted_sum(t, weights),
    decreases s.len(),
{
    if s.len() > 0 {
        let n = s.len() - 1;
        assert forall|i: int| 0 <= i < s.drop_last().len() implies (#[trigger] s.drop_last()[i]).0 == t.drop_last()[i].0
            && s.drop_last()[i].1.spec_value() <= t.drop_last()[i].1.spec_value() by {
            assert(s.drop_last()[i] == s[i] && t.drop_last()[i] == t[i]);
        }
        lemma_weighted_sum_monotonic(s.drop_last(), t.drop_last(), weights);
        assert(s.last() == s[n] && t.last() == t[n]);
        let x = s[n].1.spec_value();
        let y = t[n].1.spec_value();
        let w = weights[s[n].0].spec_value();
        assert(x * w <= y * w) by (nonlinear_arith)
            requires
                x <= y,
                w >= 0,
        ;
    }
}

/// Raising any of a project's scores never lowers its total: for two tables
/// of the same attributes where each score of the second is at least that of
/// the first, the second weighs at least as much, saturated or not.
pub proof fn lemma_score_monotonic(a: SortedTable<Score>, b: SortedTable<Score>, weights: Map<Seq<char>, Weight>)
    requires
        a.spec_keys() == b.spec_keys(),
        forall|i: int| 0 <= i < a.spec_entries().len()
            ==> (#[trigger] a.spec_entries()[i]).1.spec_value() <= b.spec_entries()[i].1.spec_value(),
    ensures
        weighted_sum(a.spec_entries(), weights) <= weighted_sum(b.spec_entries(), weights),
        saturated(weighted_sum(a.spec_entries(), weights)) <= saturated(weighted_sum(b.spec_entries(), weights)),
{
    let s = a.spec_entries();
    let t = b.spec_entries();
    assert(keys_of(s).len() == keys_of(t).len());
    assert forall|i: int| 0 <= i < s.len() implies (#[trigger] s[i]).0 == t[i].0 by {
        assert(keys_of(s)[i] == keys_of(t)[i]);
    }
    lemma_weighted_sum_monotonic(s, t, weights);
}

/// A scored project.
#[derive(Debug)]
pub struct Project {
    name: ProjectName,
    info: Info,
    attributes: SortedTable<Score>,
    score: u32,
}

impl Project {
    /// The project's name.
    pub closed spec fn spec_name(self) -> Seq<char> {
        self.name@
    }

    /// What the project says of itself.
    pub closed spec fn spec_info(self) -> Info {
        self.info
    }

    /// The user's scores, by attribute name.
    pub closed spec fn spec_attributes(self) -> SortedTable<Score> {
        self.attributes
    }

    /// The weighted total of the scores.
    pub closed spec fn spec_score(self) -> u32 {
        self.score
    }

    /// The project's name.
    pub fn project_name(&self) -> (r: &str)
        ensures
            r@ == self.spec_name(),
    {
        self.name.as_str()
    }

    /// The repository link, if the project has one.
    pub fn repo_link(&self) -> (r: Option<&str>)
        ensures
            r matches Some(l) ==> self.spec_info().spec_repo_link() == Some(l@),
            r is None ==> self.spec_info().spec_repo_link() is None,
    {
        self.info.repo_link()
    }

    /// What the project says of itself.
    pub fn info(&self) -> (r: &Info)
        ensures
            *r == self.spec_info(),
    {
        &self.info
    }

    /// The user's scores, by attribute name.
    pub fn attributes(&self) -> (r: &SortedTable<Score>)
        ensures
            *r == self.spec_attributes(),
    {
        &self.attributes
    }

    /// The weighted total of the scores.
    pub fn total(&self) -> (r: u32)
        ensures
            r == self.spec_score(),
    {
        self.score
    }

    /// Reads a project file: checks its name and the names it builds on,
    /// checks that it scores exactly the configured attributes, checks each
    /// score, and computes the weighted total.
    #[verifier::loop_isolation(false)]
    pub fn parse(
        raw: ProjectToml,
        name: &str,
        config: &Config,
        project_names: &ProjectNames,
    ) -> (r: Result<Project, ParseError>)
        ensures
            !project_names.spec_names().contains(name@) ==> (r matches Err(ParseError::ProjectNotFound(s)) && s@ == name@),
            project_names.spec_names().contains(name@) ==> {
                let names = project_names.spec_names();
                let builds = raw.info.builds_on@.map_values(|b: String| b@);
                let same = config.spec_weights().spec_keys() == raw.attributes.spec_keys();
                &&& forall|i: int| first_unknown(names, builds, i)
                    ==> (r matches Err(ParseError::ProjectNotFound(s)) && s@ == builds[i])
                &&& (all_known(names, builds) && !same) ==> (r matches Err(e) && e is AttributesMismatch)
                &&& (all_known(names, builds) && same && !values_within(raw.attributes.spec_entries(), 1, 10))
                    ==> (r matches Err(e) && e is ScoreOutOfRange)
                &&& (all_known(names, builds) && same && values_within(raw.attributes.spec_entries(), 1, 10))
                    ==> r is Ok
            },
            r matches Ok(p) ==> {
                &&& p.spec_name() == name@
                &&& p.spec_info().spec_description() == raw.info.description@
                &&& p.spec_info().spec_repo_link() == (if raw.info.repo_link@.len() == 0 {
                    None
                } else {
                    Some(raw.info.repo_link@)
                })
                &&& p.spec_info().spec_tags() == raw.info.tags@.map_values(|t: String| t@)
                &&& p.spec_info().spec_builds_on() == raw.info.builds_on@.map_values(|b: String| b@)
                &&& p.spec_attributes().spec_keys() == raw.attributes.spec_keys()
                &&& forall|i: int| 0 <= i < raw.attributes.spec_entries().len()
                    ==> (#[trigger] p.spec_attributes().spec_entries()[i]).1.spec_value() == raw.attributes.spec_entries()[i].1
                &&& p.spec_score() == saturated(weighted_sum(p.spec_attributes().spec_entries(), config.spec_weights().as_map()))
            },
    {
        let pname = match project_names.mint(name) {
            Ok(p) => p,
            Err(e) => {
                return Err(e);
            },
        };
        let ghost names = project_names.spec_names();
        let ghost builds = raw.info.builds_on@.map_values(|b: String| b@);
        let ProjectToml { info, attributes } = raw;
        let InfoToml { description, repo_link, tags, builds_on } = info;
        let repo = if repo_link.as_str().is_empty() {
            None
        } else {
            Some(repo_link)
        };
        let mut minted: Vec<ProjectName> = Vec::new();
        for b in it: builds_on
            invariant
                it.seq() == raw.info.builds_on@,
                builds == raw.info.builds_on@.map_values(|b: String| b@),
                names == project_names.spec_names(),
                minted.len() == it.index(),
                forall|j: int| 0 <= j < it.index() ==> (#[trigger] minted@[j])@ == builds[j],
                all_known(names, builds.take(it.index() as int)),
        {
            let ghost i = it.index() as int;
            match project_names.mint(b.as_str()) {
                Ok(p) => {
                    proof {
                        assert(b == raw.info.builds_on@[i]);
                        assert(builds.take(i + 1) =~= builds.take(i).push(builds[i]));
                    }
                    minted.push(p);
                },
                Err(e) => {
                    proof {
                        assert(b == raw.info.builds_on@[i]);
                        assert(first_unknown(names, builds, i));
                        assert forall|k: int| first_unknown(names, builds, k) implies k == i by {
                            if k < i {
                                assert(builds.take(i)[k] == builds[k]);
                            }
                            if k > i {
                                assert(builds.take(k)[i] == builds[i]);
                            }
                        }
                    }
                    return Err(e);
                },
            }
        }
        proof {
            assert(builds.take(builds.len() as int) =~= builds);
            assert forall|k: int| !first_unknown(names, builds, k) by {
                if 0 <= k < builds.len() {
                    assert(names.contains(builds.take(builds.len() as int)[k]));
                }
            }
            assert(minted@.map_values(|p: ProjectName| p@) =~= builds);
        }
        match config.validate(&attributes) {
            Ok(()) => {},
            Err(_) => {
                return Err(ParseError::AttributesMismatch);
            },
        }
        let n = attributes.len();
        let mut scores: Vec<Score> = Vec::new();
        let mut i: usize = 0;
        while i < n
            invariant
                n == attributes.spec_entries().len(),
                i <= n,
                scores.len() == i,
                forall|j: int| 0 <= j < i ==> 1 <= #[trigger] attributes.spec_entries()[j].1 <= 10,
                forall|j: int| 0 <= j < i ==> (#[trigger] scores@[j]).spec_value() == attributes.spec_entries()[j].1,
            decreases n - i,
        {
            let v: i64 = *attributes.value_at(i);
            match Score::try_from(v) {
                Ok(sc) => {
                    proof {
                        Score::lemma_make(v as u8);
                    }
                    scores.push(sc);
                },
                Err(_) => {
                    return Err(ParseError::ScoreOutOfRange);
                },
            }
            i = i + 1;
        }
        let table = attributes.with_values(scores);
        proof {
            assert forall|j: int| 0 <= j < table.spec_keys().len()
                implies config.spec_weights().as_map().dom().contains(#[trigger] table.spec_keys()[j]) by {
                lemma_entries_map_dom(config.spec_weights().spec_entries(), table.spec_keys()[j]);
                assert(config.spec_weights().spec_keys()[j] == table.spec_keys()[j]);
            }
        }
        let score = match Self::score(&table, config) {
            Ok(t) => t,
            Err(e) => {
                return Err(e);
            },
        };
        let info = Info { description, repo_link: repo, tags, builds_on: minted };
        Ok(Project { name: pname, info, attributes: table, score })
    }

    /// The weighted total of `attributes` under the configuration's weights,
    /// saturating at the largest `u32`; `MissingWeight` where an attribute
    /// has no weight.
    pub fn score(attributes: &SortedTable<Score>, config: &Config) -> (r: Result<u32, ParseError>)
        ensures
            r is Ok <==> forall|i: int| 0 <= i < attributes.spec_keys().len()
                ==> config.spec_weights().as_map().dom().contains(#[trigger] attributes.spec_keys()[i]),
            r matches Ok(t) ==> t == saturated(weighted_sum(attributes.spec_entries(), config.spec_weights().as_map())),
            r matches Err(e) ==> e is MissingWeight,
    {
        let ghost entries = attributes.spec_entries();
        let ghost wmap = config.spec_weights().as_map();
        let n = attributes.len();
        let mut total: u32 = 0;
        let mut i: usize = 0;
        while i < n
            invariant
                n == entries.len(),
                entries == attributes.spec_entries(),
                wmap == config.spec_weights().as_map(),
                i <= n,
                total == saturated(weighted_sum(entries.take(i as int), wmap)),
                forall|j: int| 0 <= j < i ==> wmap.dom().contains(#[trigger] keys_of(entries)[j]),
            decreases n - i,
        {
            let attribute = attributes.key_at(i);
            let score = attributes.value_at(i);
            let weight = match config.weights.get(attribute.as_str()) {
                Some(w) => w,
                None => {
                    assert(attributes.spec_keys()[i as int] == attribute@);
                    assert(!wmap.dom().contains(attributes.spec_keys()[i as int]));
                    return Err(ParseError::MissingWeight);
                },
            };
            let m = mult_score_weight(*score, *weight);
            proof {
                assert(entries.take(i + 1).drop_last() =~= entries.take(i as int));
                assert(entries.take(i + 1).last() == entries[i as int]);
            }
            total = total.saturating_add(m);
            i = i + 1;
        }
        assert(entries.take(n as int) =~= entries);
        Ok(total)
    }
}

} // verus!
