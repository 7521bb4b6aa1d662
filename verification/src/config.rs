use vstd::prelude::*;

use crate::rules::{
    EntryType, EntryTypeView, Rule, RuleSet, RuleSetView, RuleView, has_dir_rule,
    rule_allows_dir, rule_views, str_eq, string_views, type_views,
};

verus! {

/// One node of a structured configuration document: the shapes the rule-set
/// builder reads. Nodes of any other shape (null, floating-point, and the
/// like) are carried as `Other` and rejected where a value is expected.
#[derive(Debug, PartialEq)]
pub enum ConfigValue {
    Bool(bool),
    Int(i64),
    Str(String),
    List(Vec<ConfigValue>),
    Mapping(Vec<(ConfigValue, ConfigValue)>),
    Other,
}

/// A configuration-time error: the subtree does not describe a rule set.
#[derive(Clone, Debug, PartialEq)]
pub enum ConfigError {
    /// A mapping key outside the recognized vocabulary.
    UnknownKey(String),
    /// An `allow-type` string that is neither `dir`, `file`, nor `.something`.
    InvalidExtension(String),
    /// A size value that names no byte count: a negative integer, a string
    /// that is no parsable size literal, or a node of any other shape.
    InvalidSizeLiteral,
    /// A value (or key) of the wrong shape, such as a non-boolean `recursive`.
    WrongValueType,
    /// A rule set with no rules would mark everything as clutter: rejected.
    EmptyRuleSet,
}

/// Mathematical image of a `ConfigError`.
#[verifier::ext_equal]
pub enum ConfigErrorView {
    UnknownKey(Seq<char>),
    InvalidExtension(Seq<char>),
    InvalidSizeLiteral,
    WrongValueType,
    EmptyRuleSet,
}

impl View for ConfigError {
    type V = ConfigErrorView;

    open spec fn view(&self) -> ConfigErrorView {
        match self {
            ConfigError::UnknownKey(k) => ConfigErrorView::UnknownKey(k@),
            ConfigError::InvalidExtension(e) => ConfigErrorView::InvalidExtension(e@),
            ConfigError::InvalidSizeLiteral => ConfigErrorView::InvalidSizeLiteral,
            ConfigError::WrongValueType => ConfigErrorView::WrongValueType,
            ConfigError::EmptyRuleSet => ConfigErrorView::EmptyRuleSet,
        }
    }
}

/// What `parse_size::parse_size` yields for a size literal: the byte count,
/// or `None` where the literal is rejected.
pub uninterp spec fn spec_size_literal(s: Seq<char>) -> Option<u64>;

/// Whether `c` is a decimal digit (the code points of `'0'` through `'9'`).
pub open spec fn spec_is_digit(c: char) -> bool {
    48 <= c as int && c as int <= 57
}

/// The numeric value of the decimal digit `c`.
pub open spec fn spec_digit(c: char) -> int {
    c as int - 48
}

/// Whether the size literal's digits round up at exactly `u64::MAX`. The
/// parser of the `parse-size` crate accumulates the literal's digits into a
/// `u64` (underscores, spaces and the dot are skipped; any other character
/// ends the accumulation), and when the digits overflow it rounds by the
/// first digit that no longer fits: if the digits read so far hold exactly
/// `u64::MAX` and the next digit is five or more, that rounding step itself
/// overflows. `acc` carries the value of the digits already read.
pub open spec fn digits_round_up_at_max(s: Seq<char>, acc: int) -> bool
    decreases s.len(),
{
    if s.len() == 0 {
        false
    } else {
        let c = s[0];
        if spec_is_digit(c) {
            if acc == u64::MAX && spec_digit(c) >= 5 {
                true
            } else if acc * 10 + spec_digit(c) > u64::MAX {
                false
            } else {
                digits_round_up_at_max(s.drop_first(), acc * 10 + spec_digit(c))
            }
        } else if c == '_' || c == ' ' || c == '.' {
            digits_round_up_at_max(s.drop_first(), acc)
        } else {
            false
        }
    }
}

/// Whether the literal `s` is one on which the outside parser's rounding
/// would overflow; such literals are rejected before the parser is called.
#[verifier::loop_isolation(false)]
fn digits_round_up_at_max_check(s: &str) -> (r: bool)
    ensures
        r == digits_round_up_at_max(s@, 0),
{
    let n = s.unicode_len();
    let mut i: usize = 0;
    let mut acc: u64 = 0;
    proof {
        assert(s@.skip(0) =~= s@);
    }
    while i < n
        invariant
            i <= n,
            n == s@.len(),
            digits_round_up_at_max(s@, 0) == digits_round_up_at_max(
                s@.skip(i as int),
                acc as int,
            ),
        decreases n - i,
    {
        proof {
            assert(s@.skip(i as int).drop_first() =~= s@.skip(i as int + 1));
            assert(s@.skip(i as int)[0] == s@[i as int]);
        }
        let c = s.get_char(i);
        let u = c as u32;
        if 48 <= u && u <= 57 {
            let d = (u - 48) as u64;
            if acc == u64::MAX && d >= 5 {
                return true;
            }
            match acc.checked_mul(10) {
                Some(v) => match v.checked_add(d) {
                    Some(w) => {
                        acc = w;
                    },
                    None => {
                        return false;
                    },
                },
                None => {
                    return false;
                },
            }
        } else if c == '_' || c == ' ' || c == '.' {
        } else {
            return false;
        }
        i = i + 1;
    }
    proof {
        assert(s@.skip(n as int) =~= Seq::<char>::empty());
    }
    false
}

/// Relies on `parse_size::parse_size` of the `parse-size` crate, with its
/// default configuration: it parses a human-readable byte-size literal such
/// as `"10MB"` into an exact byte count, and its result is a function of the
/// characters alone. On a literal whose digits round up at exactly
/// `u64::MAX` the parser's rounding step overflows, so those literals are
/// excluded here and rejected by the caller.
#[verifier::external_body]
fn parse_size_literal(s: &str) -> (r: Option<u64>)
    requires
        !digits_round_up_at_max(s@, 0),
    ensures
        r == spec_size_literal(s@),
{
    match parse_size::parse_size(s) {
        Ok(n) => Some(n),
        Err(_) => None,
    }
}

/// What entry type a configuration node names: `dir`, `file`, or an
/// extension written with its leading dot (stored without it).
pub open spec fn parse_type_spec(v: ConfigValue) -> Result<EntryTypeView, ConfigErrorView> {
    match v {
        ConfigValue::Str(s) => if s@ == "dir"@ {
            Ok(EntryTypeView::Dir)
        } else if s@ == "file"@ {
            Ok(EntryTypeView::File)
        } else if s@.len() > 0 && s@[0] == '.' {
            Ok(EntryTypeView::Ext(s@.subrange(1, s@.len() as int)))
        } else {
            Err(ConfigErrorView::InvalidExtension(s@))
        },
        _ => Err(ConfigErrorView::WrongValueType),
    }
}

/// Parses one `allow-type` element.
pub fn parse_entry_type(item: &ConfigValue) -> (r: Result<EntryType, ConfigError>)
    ensures
        match r {
            Ok(t) => parse_type_spec(*item) == Ok::<EntryTypeView, ConfigErrorView>(t@),
            Err(e) => parse_type_spec(*item) == Err::<EntryTypeView, ConfigErrorView>(e@),
        },
{
    match item {
        ConfigValue::Str(s) => {
            if str_eq(s.as_str(), "dir") {
                Ok(EntryType::Dir)
            } else if str_eq(s.as_str(), "file") {
                Ok(EntryType::File)
            } else if s.as_str().unicode_len() > 0 && s.as_str().get_char(0) == '.' {
                let ext = s.as_str().substring_char(1, s.as_str().unicode_len()).to_owned();
                Ok(EntryType::Ext(ext))
            } else {
                Err(ConfigError::InvalidExtension(s.clone()))
            }
        },
        _ => Err(ConfigError::WrongValueType),
    }
}

/// What file name a configuration node names.
pub open spec fn parse_name_spec(v: ConfigValue) -> Result<Seq<char>, ConfigErrorView> {
    match v {
        ConfigValue::Str(s) => Ok(s@),
        _ => Err(ConfigErrorView::WrongValueType),
    }
}

/// Parses one `allow-name` element.
pub fn parse_entry_name(item: &ConfigValue) -> (r: Result<String, ConfigError>)
    ensures
        match r {
            Ok(s) => parse_name_spec(*item) == Ok::<Seq<char>, ConfigErrorView>(s@),
            Err(e) => parse_name_spec(*item) == Err::<Seq<char>, ConfigErrorView>(e@),
        },
{
    match item {
        ConfigValue::Str(s) => Ok(s.clone()),
        _ => Err(ConfigError::WrongValueType),
    }
}

/// The elements a node stands for: a list's elements, or the node itself as
/// a single element (a scalar where a list is expected means a one-element
/// list).
pub open spec fn as_items(v: ConfigValue) -> Seq<ConfigValue> {
    match v {
        ConfigValue::List(vs) => vs@,
        _ => seq![v],
    }
}

/// The entry types named by `items`, in order; the first failure wins.
pub open spec fn parse_types_spec(items: Seq<ConfigValue>) -> Result<
    Seq<EntryTypeView>,
    ConfigErrorView,
>
    decreases items.len(),
{
    if items.len() == 0 {
        Ok(Seq::empty())
    } else {
        match parse_type_spec(items[0]) {
            Ok(t) => match parse_types_spec(items.drop_first()) {
                Ok(ts) => Ok(seq![t] + ts),
                Err(e) => Err(e),
            },
            Err(e) => Err(e),
        }
    }
}

/// The file names named by `items`, in order; the first failure wins.
pub open spec fn parse_names_spec(items: Seq<ConfigValue>) -> Result<
    Seq<Seq<char>>,
    ConfigErrorView,
>
    decreases items.len(),
{
    if items.len() == 0 {
        Ok(Seq::empty())
    } else {
        match parse_name_spec(items[0]) {
            Ok(n) => match parse_names_spec(items.drop_first()) {
                Ok(ns) => Ok(seq![n] + ns),
                Err(e) => Err(e),
            },
            Err(e) => Err(e),
        }
    }
}

/// Parses an `allow-type` value: one type, or a list of types.
#[verifier::loop_isolation(false)]
pub fn parse_entry_types(value: &ConfigValue) -> (r: Result<Vec<EntryType>, ConfigError>)
    ensures
        match r {
            Ok(ts) => parse_types_spec(as_items(*value)) == Ok::<_, ConfigErrorView>(
                type_views(ts@),
            ),
            Err(e) => parse_types_spec(as_items(*value)) == Err::<Seq<EntryTypeView>, _>(e@),
        },
{
    match value {
        ConfigValue::List(items) => {
            let mut out: Vec<EntryType> = Vec::new();
            let mut i: usize = 0;
            proof {
                assert(items@.skip(0) =~= items@);
                assert(type_views(out@) =~= Seq::<EntryTypeView>::empty());
                if parse_types_spec(items@) is Ok {
                    assert((type_views(out@) + parse_types_spec(items@)->Ok_0) =~= parse_types_spec(items@)->Ok_0);
                }
            }
            while i < items.len()
                invariant
                    i <= items.len(),
                    parse_types_spec(items@) == (match parse_types_spec(
                        items@.skip(i as int),
                    ) {
                        Ok(rest) => Ok::<_, ConfigErrorView>(type_views(out@) + rest),
                        Err(e) => Err(e),
                    }),
                decreases items.len() - i,
            {
                proof {
                    assert(items@.skip(i as int).drop_first() =~= items@.skip(i as int + 1));
                    assert(items@.skip(i as int)[0] == items@[i as int]);
                }
                match parse_entry_type(&items[i]) {
                    Ok(t) => {
                        let ghost tv = t@;
                        let ghost before = out@;
                        out.push(t);
                        proof {
                            assert(type_views(out@) =~= type_views(before).push(tv));
                            let rest_r = parse_types_spec(items@.skip(i as int + 1));
                            if rest_r is Ok {
                                assert((type_views(before) + (seq![tv] + rest_r->Ok_0)) =~= (
                                type_views(out@) + rest_r->Ok_0));
                            }
                        }
                    },
                    Err(e) => {
                        return Err(e);
                    },
                }
                i = i + 1;
            }
            proof {
                assert(items@.skip(items@.len() as int) =~= Seq::<ConfigValue>::empty());
                assert(type_views(out@) + Seq::<EntryTypeView>::empty() =~= type_views(out@));
            }
            Ok(out)
        },
        _ => {
            proof {
                reveal_with_fuel(parse_types_spec, 2);
                assert(as_items(*value) == seq![*value]);
                assert(seq![*value].drop_first() =~= Seq::<ConfigValue>::empty());
                assert(seq![*value][0] == *value);
            }
            match parse_entry_type(value) {
                Ok(t) => {
                    let ghost tv = t@;
                    let out = vec![t];
                    proof {
                        assert(type_views(out@) =~= seq![tv]);
                        assert(seq![tv] + Seq::<EntryTypeView>::empty() =~= seq![tv]);
                    }
                    Ok(out)
                },
                Err(e) => Err(e),
            }
        },
    }
}

/// Parses an `allow-name` value: one name, or a list of names.
#[verifier::loop_isolation(false)]
pub fn parse_entry_names(value: &ConfigValue) -> (r: Result<Vec<String>, ConfigError>)
    ensures
        match r {
            Ok(ns) => parse_names_spec(as_items(*value)) == Ok::<_, ConfigErrorView>(
                string_views(ns@),
            ),
            Err(e) => parse_names_spec(as_items(*value)) == Err::<Seq<Seq<char>>, _>(e@),
        },
{
    match value {
        ConfigValue::List(items) => {
            let mut out: Vec<String> = Vec::new();
            let mut i: usize = 0;
            proof {
                assert(items@.skip(0) =~= items@);
                assert(string_views(out@) =~= Seq::<Seq<char>>::empty());
                if parse_names_spec(items@) is Ok {
                    assert((string_views(out@) + parse_names_spec(items@)->Ok_0) =~= parse_names_spec(items@)->Ok_0);
                }
            }
            while i < items.len()
                invariant
                    i <= items.len(),
                    parse_names_spec(items@) == (match parse_names_spec(
                        items@.skip(i as int),
                    ) {
                        Ok(rest) => Ok::<_, ConfigErrorView>(string_views(out@) + rest),
                        Err(e) => Err(e),
                    }),
                decreases items.len() - i,
            {
                proof {
                    assert(items@.skip(i as int).drop_first() =~= items@.skip(i as int + 1));
                    assert(items@.skip(i as int)[0] == items@[i as int]);
                }
                match parse_entry_name(&items[i]) {
                    Ok(n) => {
                        let ghost nv = n@;
                        let ghost before = out@;
                        out.push(n);
                        proof {
                            assert(string_views(out@) =~= string_views(before).push(nv));
                            let rest_r = parse_names_spec(items@.skip(i as int + 1));
                            if rest_r is Ok {
                                assert((string_views(before) + (seq![nv] + rest_r->Ok_0)) =~= (
                                string_views(out@) + rest_r->Ok_0));
                            }
                        }
                    },
                    Err(e) => {
                        return Err(e);
                    },
                }
                i = i + 1;
            }
            proof {
                assert(items@.skip(items@.len() as int) =~= Seq::<ConfigValue>::empty());
                assert(string_views(out@) + Seq::<Seq<char>>::empty() =~= string_views(out@));
            }
            Ok(out)
        },
        _ => {
            proof {
                reveal_with_fuel(parse_names_spec, 2);
                assert(as_items(*value) == seq![*value]);
                assert(seq![*value].drop_first() =~= Seq::<ConfigValue>::empty());
                assert(seq![*value][0] == *value);
            }
            match parse_entry_name(value) {
                Ok(n) => {
                    let ghost nv = n@;
                    let out = vec![n];
                    proof {
                        assert(string_views(out@) =~= seq![nv]);
                        assert(seq![nv] + Seq::<Seq<char>>::empty() =~= seq![nv]);
                    }
                    Ok(out)
                },
                Err(e) => Err(e),
            }
        },
    }
}

/// What byte count a size node stands for: a non-negative integer is taken
/// as bytes; a string is parsed as a size literal, rejecting beforehand the
/// literals on which the parser's rounding would overflow; a node of any
/// other shape names no size at all.
pub open spec fn parse_size_value_spec(v: ConfigValue) -> Result<u64, ConfigErrorView> {
    match v {
        ConfigValue::Int(x) => if 0 <= x {
            Ok(x as u64)
        } else {
            Err(ConfigErrorView::InvalidSizeLiteral)
        },
        ConfigValue::Str(s) => if digits_round_up_at_max(s@, 0) {
            Err(ConfigErrorView::InvalidSizeLiteral)
        } else {
            match spec_size_literal(s@) {
                Some(n) => Ok(n),
                None => Err(ConfigErrorView::InvalidSizeLiteral),
            }
        },
        _ => Err(ConfigErrorView::InvalidSizeLiteral),
    }
}

/// Parses a `min-size` or `max-size` value into a byte count.
pub fn parse_file_size(value: &ConfigValue) -> (r: Result<u64, ConfigError>)
    ensures
        match r {
            Ok(n) => parse_size_value_spec(*value) == Ok::<u64, ConfigErrorView>(n),
            Err(e) => parse_size_value_spec(*value) == Err::<u64, ConfigErrorView>(e@),
        },
{
    match value {
        ConfigValue::Int(x) => if *x >= 0 {
            Ok(*x as u64)
        } else {
            Err(ConfigError::InvalidSizeLiteral)
        },
        ConfigValue::Str(s) => if digits_round_up_at_max_check(s.as_str()) {
            Err(ConfigError::InvalidSizeLiteral)
        } else {
            match parse_size_literal(s.as_str()) {
                Some(n) => Ok(n),
                None => Err(ConfigError::InvalidSizeLiteral),
            }
        },
        _ => Err(ConfigError::InvalidSizeLiteral),
    }
}

/// Folds the mapping's pairs, in order, into the recursion flag and the rule
/// sequence; the first failing pair wins. A later `recursive` key overrides
/// an earlier one; each rule key appends one rule.
pub open spec fn build_pairs(
    pairs: Seq<(ConfigValue, ConfigValue)>,
    recursive: bool,
    rules: Seq<RuleView>,
) -> Result<(bool, Seq<RuleView>), ConfigErrorView>
    decreases pairs.len(),
{
    if pairs.len() == 0 {
        Ok((recursive, rules))
    } else {
        let kv = pairs[0];
        match kv.0 {
            ConfigValue::Str(key) => if key@ == "recursive"@ {
                match kv.1 {
                    ConfigValue::Bool(b) => build_pairs(pairs.drop_first(), b, rules),
                    _ => Err(ConfigErrorView::WrongValueType),
                }
            } else if key@ == "allow-type"@ {
                match parse_types_spec(as_items(kv.1)) {
                    Ok(ts) => build_pairs(
                        pairs.drop_first(),
                        recursive,
                        rules.push(RuleView::AllowType(ts)),
                    ),
                    Err(e) => Err(e),
                }
            } else if key@ == "allow-name"@ {
                match parse_names_spec(as_items(kv.1)) {
                    Ok(ns) => build_pairs(
                        pairs.drop_first(),
                        recursive,
                        rules.push(RuleView::AllowName(ns)),
                    ),
                    Err(e) => Err(e),
                }
            } else if key@ == "min-size"@ {
                match parse_size_value_spec(kv.1) {
                    Ok(n) => build_pairs(
                        pairs.drop_first(),
                        recursive,
                        rules.push(RuleView::MinSize(n)),
                    ),
                    Err(e) => Err(e),
                }
            } else if key@ == "max-size"@ {
                match parse_size_value_spec(kv.1) {
                    Ok(n) => build_pairs(
                        pairs.drop_first(),
                        recursive,
                        rules.push(RuleView::MaxSize(n)),
                    ),
                    Err(e) => Err(e),
                }
            } else {
                Err(ConfigErrorView::UnknownKey(key@))
            },
            _ => Err(ConfigErrorView::WrongValueType),
        }
    }
}

proof fn lemma_recursive_only_pairs(
    pairs: Seq<(ConfigValue, ConfigValue)>,
    recursive: bool,
    rules: Seq<RuleView>,
)
    requires
        forall|i: int|
            0 <= i < pairs.len() ==> ((#[trigger] pairs[i]).0 matches ConfigValue::Str(k)
                && k@ == "recursive"@) && pairs[i].1 is Bool,
    ensures
        build_pairs(pairs, recursive, rules) matches Ok(st) && st.1 == rules,
    decreases pairs.len(),
{
    if pairs.len() > 0 {
        assert(pairs[0].0 matches ConfigValue::Str(k) && k@ == "recursive"@);
        assert forall|i: int|
            0 <= i < pairs.drop_first().len() implies ((#[trigger] pairs.drop_first()[
            i]).0 matches ConfigValue::Str(k) && k@ == "recursive"@) && pairs.drop_first()[
            i].1 is Bool by {
            assert(pairs.drop_first()[i] == pairs[i + 1]);
        }
        lemma_recursive_only_pairs(pairs.drop_first(), pairs[0].1->Bool_0, rules);
    }
}

/// A mapping that holds no rule-producing key — each of its pairs (if any)
/// sets `recursive` to a boolean — yields zero rules, so building a rule set
/// from it always fails with `EmptyRuleSet`. The empty mapping is the
/// simplest such input.
pub proof fn lemma_no_rule_keys_rejected(cfg: ConfigValue)
    requires
        cfg is Mapping,
        forall|i: int|
            0 <= i < cfg->Mapping_0@.len() ==> ((#[trigger] cfg->Mapping_0@[
            i]).0 matches ConfigValue::Str(k) && k@ == "recursive"@) && cfg->Mapping_0@[
            i].1 is Bool,
    ensures
        build_spec(cfg) == Err::<RuleSetView, ConfigErrorView>(ConfigErrorView::EmptyRuleSet),
{
    lemma_recursive_only_pairs(cfg->Mapping_0@, true, Seq::empty());
}

/// The directory-inclusion normalization of a recursive rule set: when no
/// rule allows directories yet, one allowing exactly them is appended last.
pub open spec fn add_dir_rule(rules: Seq<RuleView>) -> Seq<RuleView> {
    if has_dir_rule(rules) {
        rules
    } else {
        rules.push(RuleView::AllowType(seq![EntryTypeView::Dir]))
    }
}

/// What rule set a configuration subtree stands for: the subtree must be a
/// mapping over the recognized vocabulary, must yield at least one rule, and
/// a recursive rule set is normalized so that directories stay traversable.
pub open spec fn build_spec(cfg: ConfigValue) -> Result<RuleSetView, ConfigErrorView> {
    match cfg {
        ConfigValue::Mapping(pairs) => match build_pairs(pairs@, true, Seq::empty()) {
            Ok(st) => if st.1.len() == 0 {
                Err(ConfigErrorView::EmptyRuleSet)
            } else if st.0 {
                Ok(RuleSetView { recursive: true, rules: add_dir_rule(st.1) })
            } else {
                Ok(RuleSetView { recursive: false, rules: st.1 })
            },
            Err(e) => Err(e),
        },
        _ => Err(ConfigErrorView::WrongValueType),
    }
}

/// After the directory-inclusion normalization some rule allows directories.
pub proof fn lemma_add_dir_rule(rules: Seq<RuleView>)
    ensures
        has_dir_rule(add_dir_rule(rules)),
{
    if !has_dir_rule(rules) {
        let pushed = add_dir_rule(rules);
        assert(pushed[rules.len() as int] == RuleView::AllowType(seq![EntryTypeView::Dir]));
        assert(seq![EntryTypeView::Dir][0] == EntryTypeView::Dir);
        assert(seq![EntryTypeView::Dir].contains(EntryTypeView::Dir));
        assert(rule_allows_dir(pushed[rules.len() as int]));
    }
}

/// Any rule set built with `recursive = true` holds, after construction, at
/// least one `AllowType` rule whose type set contains `Directory`.
pub proof fn lemma_recursive_directory_invariant(cfg: ConfigValue)
    requires
        build_spec(cfg) matches Ok(rs) && rs.recursive,
    ensures
        has_dir_rule(build_spec(cfg)->Ok_0.rules),
{
    let pairs = cfg->Mapping_0@;
    let st = build_pairs(pairs, true, Seq::empty())->Ok_0;
    lemma_add_dir_rule(st.1);
}

/// Whether some rule of `rules` is an `AllowType` rule listing `Dir`.
#[verifier::loop_isolation(false)]
fn vec_has_dir_rule(rules: &Vec<Rule>) -> (r: bool)
    ensures
        r == has_dir_rule(rule_views(rules@)),
{
    let mut i: usize = 0;
    while i < rules.len()
        invariant
            i <= rules.len(),
            forall|j: int| 0 <= j < i ==> !rule_allows_dir(#[trigger] rule_views(rules@)[j]),
        decreases rules.len() - i,
    {
        match &rules[i] {
            Rule::AllowType(ts) => {
                let mut k: usize = 0;
                while k < ts.len()
                    invariant
                        k <= ts.len(),
                        forall|j: int| 0 <= j < k ==> type_views(ts@)[j] != EntryTypeView::Dir,
                    decreases ts.len() - k,
                {
                    if matches!(ts[k], EntryType::Dir) {
                        assert(type_views(ts@)[k as int] == EntryTypeView::Dir);
                        assert(type_views(ts@).contains(EntryTypeView::Dir));
                        assert(rule_allows_dir(rule_views(rules@)[i as int]));
                        return true;
                    }
                    k = k + 1;
                }
                proof {
                    assert forall|j: int| 0 <= j < type_views(ts@).len() implies type_views(
                        ts@,
                    )[j] != EntryTypeView::Dir by {}
                    assert(!type_views(ts@).contains(EntryTypeView::Dir));
                    assert(!rule_allows_dir(rule_views(rules@)[i as int]));
                }
            },
            _ => {
                proof {
                    assert(!rule_allows_dir(rule_views(rules@)[i as int]));
                }
            },
        }
        i = i + 1;
    }
    false
}

/// Builds the rule set that a configuration subtree describes, validating
/// its keys and shapes; a built rule set is never empty, and a recursive one
/// always has a rule that allows directories.
#[verifier::loop_isolation(false)]
pub fn parse_yaml_ruleset(config: &ConfigValue) -> (r: Result<RuleSet, ConfigError>)
    ensures
        match r {
            Ok(rs) => build_spec(*config) == Ok::<RuleSetView, ConfigErrorView>(rs@)
                && rs.wf(),
            Err(e) => build_spec(*config) == Err::<RuleSetView, ConfigErrorView>(e@),
        },
{
    let pairs = match config {
        ConfigValue::Mapping(ps) => ps,
        _ => {
            return Err(ConfigError::WrongValueType);
        },
    };
    let mut recursive = true;
    let mut rules: Vec<Rule> = Vec::new();
    let mut i: usize = 0;
    proof {
        assert(pairs@.skip(0) =~= pairs@);
        assert(rule_views(rules@) =~= Seq::<RuleView>::empty());
    }
    while i < pairs.len()
        invariant
            i <= pairs.len(),
            build_pairs(pairs@, true, Seq::empty()) == build_pairs(
                pairs@.skip(i as int),
                recursive,
                rule_views(rules@),
            ),
        decreases pairs.len() - i,
    {
        proof {
            assert(pairs@.skip(i as int).drop_first() =~= pairs@.skip(i as int + 1));
            assert(pairs@.skip(i as int)[0] == pairs@[i as int]);
        }
        let kv = &pairs[i];
        let key = match &kv.0 {
            ConfigValue::Str(k) => k,
            _ => {
                return Err(ConfigError::WrongValueType);
            },
        };
        if str_eq(key.as_str(), "recursive") {
            match &kv.1 {
                ConfigValue::Bool(b) => {
                    recursive = *b;
                },
                _ => {
                    return Err(ConfigError::WrongValueType);
                },
            }
        } else if str_eq(key.as_str(), "allow-type") {
            let ts = match parse_entry_types(&kv.1) {
                Ok(ts) => ts,
                Err(e) => {
                    return Err(e);
                },
            };
            let ghost tsv = type_views(ts@);
            let ghost before = rules@;
            rules.push(Rule::AllowType(ts));
            proof {
                assert(rule_views(rules@) =~= rule_views(before).push(
                    RuleView::AllowType(tsv),
                ));
            }
        } else if str_eq(key.as_str(), "allow-name") {
            let ns = match parse_entry_names(&kv.1) {
                Ok(ns) => ns,
                Err(e) => {
                    return Err(e);
                },
            };
            let ghost nsv = string_views(ns@);
            let ghost before = rules@;
            rules.push(Rule::AllowName(ns));
            proof {
                assert(rule_views(rules@) =~= rule_views(before).push(
                    RuleView::AllowName(nsv),
                ));
            }
        } else if str_eq(key.as_str(), "min-size") {
            let n = match parse_file_size(&kv.1) {
                Ok(n) => n,
                Err(e) => {
                    return Err(e);
                },
            };
            let ghost before = rules@;
            rules.push(Rule::MinSize(n));
            proof {
                assert(rule_views(rules@) =~= rule_views(before).push(RuleView::MinSize(n)));
            }
        } else if str_eq(key.as_str(), "max-size") {
            let n = match parse_file_size(&kv.1) {
                Ok(n) => n,
                Err(e) => {
                    return Err(e);
                },
            };
            let ghost before = rules@;
            rules.push(Rule::MaxSize(n));
            proof {
                assert(rule_views(rules@) =~= rule_views(before).push(RuleView::MaxSize(n)));
            }
        } else {
            return Err(ConfigError::UnknownKey(key.clone()));
        }
        i = i + 1;
    }
    proof {
        assert(pairs@.skip(pairs@.len() as int) =~= Seq::<(ConfigValue, ConfigValue)>::empty());
    }
    if rules.len() == 0 {
        return Err(ConfigError::EmptyRuleSet);
    }
    let ghost base = rule_views(rules@);
    if recursive {
        if !vec_has_dir_rule(&rules) {
            let dirs: Vec<EntryType> = vec![EntryType::Dir];
            let ghost dv = type_views(dirs@);
            proof {
                assert(dv =~= seq![EntryTypeView::Dir]);
            }
            rules.push(Rule::AllowType(dirs));
            proof {
                assert(rule_views(rules@) =~= base.push(
                    RuleView::AllowType(seq![EntryTypeView::Dir]),
                ));
                lemma_add_dir_rule(base);
            }
        }
        proof {
            assert(rule_views(rules@) == add_dir_rule(base));
        }
    }
    Ok(RuleSet { recursive, rules })
}

} // verus!
