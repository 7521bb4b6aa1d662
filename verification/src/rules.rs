use vstd::prelude::*;

verus! {

/// What kind of filesystem object an entry is.
#[derive(Clone, Copy, Debug, PartialEq, Eq)]
pub enum EntryKind {
    Dir,
    File,
    Other,
}

/// The metadata of one filesystem entry that rule evaluation reads:
/// its kind and its size in bytes.
#[derive(Clone, Copy, Debug, PartialEq, Eq)]
pub struct EntryMeta {
    pub kind: EntryKind,
    pub size: u64,
}

/// One allowed entry type: a directory, a regular file, or any entry whose
/// file name carries the given extension (stored without its leading dot).
#[derive(Clone, Debug, PartialEq)]
pub enum EntryType {
    Dir,
    File,
    Ext(String),
}

/// Mathematical image of an `EntryType`: the extension as a character sequence.
#[verifier::ext_equal]
pub enum EntryTypeView {
    Dir,
    File,
    Ext(Seq<char>),
}

impl View for EntryType {
    type V = EntryTypeView;

    open spec fn view(&self) -> EntryTypeView {
        match self {
            EntryType::Dir => EntryTypeView::Dir,
            EntryType::File => EntryTypeView::File,
            EntryType::Ext(e) => EntryTypeView::Ext(e@),
        }
    }
}

/// Index of the last `'.'` in `s`, or `-1` if `s` holds none.
pub open spec fn last_dot(s: Seq<char>) -> int
    decreases s.len(),
{
    if s.len() == 0 {
        -1
    } else if s[s.len() - 1] == '.' {
        s.len() - 1
    } else {
        last_dot(s.drop_last())
    }
}

/// The extension of a file name: the text after the final `'.'`, provided that
/// dot is not the first character (a name that only starts with a dot, such as
/// a hidden file's, has no extension). The dot itself is not part of it.
pub open spec fn spec_extension(s: Seq<char>) -> Option<Seq<char>> {
    if last_dot(s) >= 1 {
        Some(s.subrange(last_dot(s) + 1, s.len() as int))
    } else {
        None
    }
}

proof fn lemma_last_dot_at(s: Seq<char>, k: int)
    requires
        0 <= k < s.len(),
        s[k] == '.',
        forall|j: int| k < j < s.len() ==> s[j] != '.',
    ensures
        last_dot(s) == k,
    decreases s.len(),
{
    if k < s.len() - 1 {
        assert(forall|j: int| k < j < s.drop_last().len() ==> s.drop_last()[j] != '.');
        lemma_last_dot_at(s.drop_last(), k);
    }
}

proof fn lemma_no_dot(s: Seq<char>)
    requires
        forall|j: int| 0 <= j < s.len() ==> s[j] != '.',
    ensures
        last_dot(s) == -1,
    decreases s.len(),
{
    if s.len() > 0 {
        lemma_no_dot(s.drop_last());
    }
}

/// The extension of the file name `name`, or `None` if it has none.
pub fn extension_of(name: &str) -> (r: Option<String>)
    ensures
        match r {
            Some(e) => spec_extension(name@) == Some(e@),
            None => spec_extension(name@) is None,
        },
{
    let n = name.unicode_len();
    let mut i: usize = n;
    while i > 0
        invariant
            i <= n,
            n == name@.len(),
            forall|j: int| i <= j < n ==> name@[j] != '.',
        decreases i,
    {
        if name.get_char(i - 1) == '.' {
            proof {
                lemma_last_dot_at(name@, i - 1);
            }
            if i - 1 == 0 {
                return None;
            }
            let ext = name.substring_char(i, n).to_owned();
            return Some(ext);
        }
        i = i - 1;
    }
    proof {
        lemma_no_dot(name@);
    }
    None
}

/// Whether two string slices hold the same characters.
pub fn str_eq(a: &str, b: &str) -> (r: bool)
    ensures
        r == (a@ == b@),
{
    let sa: String = a.to_owned();
    let sb: String = b.to_owned();
    sa == sb
}

/// Whether an entry with file name `name` and metadata `meta` is of type `t`.
pub open spec fn type_matches(t: EntryTypeView, name: Seq<char>, meta: EntryMeta) -> bool {
    match t {
        EntryTypeView::Dir => meta.kind is Dir,
        EntryTypeView::File => meta.kind is File,
        EntryTypeView::Ext(e) => spec_extension(name) == Some(e),
    }
}

impl EntryType {
    /// Whether the entry with file name `name` and metadata `meta` is of this type.
    pub fn check(&self, name: &str, meta: &EntryMeta) -> (r: bool)
        ensures
            r == type_matches(self@, name@, *meta),
    {
        match self {
            EntryType::Dir => matches!(meta.kind, EntryKind::Dir),
            EntryType::File => matches!(meta.kind, EntryKind::File),
            EntryType::Ext(e) => match extension_of(name) {
                Some(x) => str_eq(x.as_str(), e.as_str()),
                None => false,
            },
        }
    }
}

/// One rule of a rule set; an entry satisfies the rule when it matches
/// ANY of the listed alternatives (or the single size bound).
#[derive(Clone, Debug, PartialEq)]
pub enum Rule {
    AllowType(Vec<EntryType>),
    AllowName(Vec<String>),
    MinSize(u64),
    MaxSize(u64),
}

/// Mathematical image of a `Rule`.
#[verifier::ext_equal]
pub enum RuleView {
    AllowType(Seq<EntryTypeView>),
    AllowName(Seq<Seq<char>>),
    MinSize(u64),
    MaxSize(u64),
}

/// The views of a sequence of entry types.
pub open spec fn type_views(ts: Seq<EntryType>) -> Seq<EntryTypeView> {
    ts.map_values(|t: EntryType| t@)
}

/// The views of a sequence of strings.
pub open spec fn string_views(ns: Seq<String>) -> Seq<Seq<char>> {
    ns.map_values(|s: String| s@)
}

impl View for Rule {
    type V = RuleView;

    open spec fn view(&self) -> RuleView {
        match self {
            Rule::AllowType(ts) => RuleView::AllowType(type_views(ts@)),
            Rule::AllowName(ns) => RuleView::AllowName(string_views(ns@)),
            Rule::MinSize(n) => RuleView::MinSize(*n),
            Rule::MaxSize(n) => RuleView::MaxSize(*n),
        }
    }
}

/// Whether an entry with file name `name` and metadata `meta` is of at least
/// one of the types in `ts`.
pub open spec fn any_type_matches(ts: Seq<EntryTypeView>, name: Seq<char>, meta: EntryMeta) -> bool {
    exists|i: int| 0 <= i < ts.len() && type_matches(#[trigger] ts[i], name, meta)
}

/// Whether `name` equals at least one of the names in `ns`.
pub open spec fn any_name_matches(ns: Seq<Seq<char>>, name: Seq<char>) -> bool {
    exists|i: int| 0 <= i < ns.len() && #[trigger] ns[i] == name
}

/// Whether an entry with file name `name` and metadata `meta` satisfies `r`.
/// Both size bounds are inclusive.
pub open spec fn rule_matches(r: RuleView, name: Seq<char>, meta: EntryMeta) -> bool {
    match r {
        RuleView::AllowType(ts) => any_type_matches(ts, name, meta),
        RuleView::AllowName(ns) => any_name_matches(ns, name),
        RuleView::MinSize(n) => n <= meta.size,
        RuleView::MaxSize(n) => meta.size <= n,
    }
}

impl Rule {
    /// Whether the entry with file name `name` and metadata `meta` satisfies
    /// this rule.
    #[verifier::loop_isolation(false)]
    pub fn check(&self, name: &str, meta: &EntryMeta) -> (r: bool)
        ensures
            r == rule_matches(self@, name@, *meta),
    {
        match self {
            Rule::AllowType(types) => {
                let mut i: usize = 0;
                while i < types.len()
                    invariant
                        i <= types.len(),
                        forall|j: int| 0 <= j < i ==> !type_matches(
                            #[trigger] type_views(types@)[j],
                            name@,
                            *meta,
                        ),
                    decreases types.len() - i,
                {
                    if types[i].check(name, meta) {
                        assert(type_matches(type_views(types@)[i as int], name@, *meta));
                        return true;
                    }
                    i = i + 1;
                }
                false
            },
            Rule::AllowName(names) => {
                let mut i: usize = 0;
                while i < names.len()
                    invariant
                        i <= names.len(),
                        forall|j: int| 0 <= j < i ==> #[trigger] string_views(names@)[j] != name@,
                    decreases names.len() - i,
                {
                    if str_eq(names[i].as_str(), name) {
                        assert(string_views(names@)[i as int] == name@);
                        return true;
                    }
                    i = i + 1;
                }
                false
            },
            Rule::MinSize(bound) => *bound <= meta.size,
            Rule::MaxSize(bound) => meta.size <= *bound,
        }
    }
}

/// An ordered collection of rules plus the recursion flag that governs one
/// watched directory. An entry is clean when it satisfies at least one rule.
#[derive(Clone, Debug, PartialEq)]
pub struct RuleSet {
    pub recursive: bool,
    pub rules: Vec<Rule>,
}

/// Mathematical image of a `RuleSet`.
#[verifier::ext_equal]
pub struct RuleSetView {
    pub recursive: bool,
    pub rules: Seq<RuleView>,
}

/// The views of a sequence of rules.
pub open spec fn rule_views(rs: Seq<Rule>) -> Seq<RuleView> {
    rs.map_values(|r: Rule| r@)
}

impl View for RuleSet {
    type V = RuleSetView;

    open spec fn view(&self) -> RuleSetView {
        RuleSetView { recursive: self.recursive, rules: rule_views(self.rules@) }
    }
}

/// Whether an entry with file name `name` and metadata `meta` satisfies at
/// least one rule of `rules`: rules are alternatives, not a conjunction.
pub open spec fn set_matches(rules: Seq<RuleView>, name: Seq<char>, meta: EntryMeta) -> bool {
    exists|i: int| 0 <= i < rules.len() && rule_matches(#[trigger] rules[i], name, meta)
}

/// Whether `r` is an `AllowType` rule that lists `Directory`.
pub open spec fn rule_allows_dir(r: RuleView) -> bool {
    r matches RuleView::AllowType(ts) && ts.contains(EntryTypeView::Dir)
}

/// Whether some rule of `rules` allows directories by type.
pub open spec fn has_dir_rule(rules: Seq<RuleView>) -> bool {
    exists|i: int| 0 <= i < rules.len() && rule_allows_dir(#[trigger] rules[i])
}

impl RuleSet {
    /// Well-formedness as construction establishes it: at least one rule,
    /// and a recursive rule set keeps directories traversable.
    pub open spec fn wf(&self) -> bool {
        self@.rules.len() >= 1 && (self.recursive ==> has_dir_rule(self@.rules))
    }

    /// Whether the entry with file name `name` and metadata `meta` satisfies
    /// some rule of this set.
    #[verifier::loop_isolation(false)]
    pub fn judge(&self, name: &str, meta: &EntryMeta) -> (r: bool)
        ensures
            r == set_matches(self@.rules, name@, *meta),
    {
        let mut i: usize = 0;
        while i < self.rules.len()
            invariant
                i <= self.rules.len(),
                forall|j: int| 0 <= j < i ==> !rule_matches(
                    #[trigger] rule_views(self.rules@)[j],
                    name@,
                    *meta,
                ),
            decreases self.rules.len() - i,
        {
            if self.rules[i].check(name, meta) {
                assert(rule_matches(rule_views(self.rules@)[i as int], name@, *meta));
                return true;
            }
            i = i + 1;
        }
        false
    }
}

/// Evaluating the same rule against the same unchanged entry twice yields the
/// same result: the outcome is a function of the rule and the entry alone, so
/// any two evaluations that meet `Rule::check`'s contract agree.
pub proof fn lemma_evaluation_idempotent(
    rule: RuleView,
    name: Seq<char>,
    meta: EntryMeta,
    r1: bool,
    r2: bool,
)
    requires
        r1 == rule_matches(rule, name, meta),
        r2 == rule_matches(rule, name, meta),
    ensures
        r1 == r2,
{
}

/// Both size bounds admit equality: an entry of exactly `bound` bytes
/// satisfies `MinSize(bound)` and satisfies `MaxSize(bound)`.
pub proof fn lemma_size_bounds_inclusive(bound: u64, name: Seq<char>, meta: EntryMeta)
    requires
        meta.size == bound,
    ensures
        rule_matches(RuleView::MinSize(bound), name, meta),
        rule_matches(RuleView::MaxSize(bound), name, meta),
{
}

} // verus!

