use vstd::prelude::*;

use crate::config::{add_dir_rule, build_pairs, build_spec, parse_names_spec, ConfigErrorView,
    ConfigValue};
use crate::rules::{any_name_matches, any_type_matches, has_dir_rule, rule_allows_dir,
    rule_matches, set_matches, string_views, type_matches, EntryKind, EntryMeta, EntryTypeView,
    RuleSet, RuleView};

verus! {

/// A runtime failure while scanning a directory tree.
#[derive(Clone, Copy, Debug, PartialEq, Eq)]
pub enum IoErrorKind {
    /// The scanned root does not denote a directory.
    NotADirectory,
    /// A directory's children could not be listed.
    ListFailed,
    /// An entry's metadata could not be read, so it cannot be judged.
    MetadataUnavailable,
}

/// A runtime scan failure, with the path at which it arose.
#[derive(Clone, Debug, PartialEq)]
pub struct IoError {
    pub kind: IoErrorKind,
    pub path: String,
}

/// Mathematical image of an `IoError`.
#[verifier::ext_equal]
pub struct IoErrorView {
    pub kind: IoErrorKind,
    pub path: Seq<char>,
}

impl View for IoError {
    type V = IoErrorView;

    open spec fn view(&self) -> IoErrorView {
        IoErrorView { kind: self.kind, path: self.path@ }
    }
}

/// One entry of a directory-tree snapshot, as handed to the scanner: the
/// plain values that judging an entry reads. Failures met while taking the
/// snapshot are kept, so the scan can surface them where the entry is
/// reached.
pub struct Entry {
    /// The entry's file name (its final path segment).
    pub name: String,
    /// Its metadata, or `None` where reading it failed.
    pub meta: Option<EntryMeta>,
    /// A directory's listed children, or `None` where the entry is not a
    /// directory or its listing failed.
    pub children: Option<Vec<Entry>>,
}

/// The path of a child with file name `name` inside the directory at `dir`.
pub open spec fn spec_child_path(dir: Seq<char>, name: Seq<char>) -> Seq<char> {
    dir + seq!['/'] + name
}

/// What scanning the directory entry `e` at `path` yields: the violating
/// paths in discovery order, and the error that stopped the scan, if one
/// did. A root that is no readable directory stops it at once.
pub open spec fn scan_spec(e: Entry, rules: Seq<RuleView>, recursive: bool, path: Seq<char>) -> (
    Seq<Seq<char>>,
    Option<IoErrorView>,
)
    decreases e, 0nat,
{
    if !(e.meta matches Some(m) && m.kind is Dir) {
        (Seq::empty(), Some(IoErrorView { kind: IoErrorKind::NotADirectory, path }))
    } else {
        match e.children {
            None => (Seq::empty(), Some(IoErrorView { kind: IoErrorKind::ListFailed, path })),
            Some(cs) => scan_children_spec(cs@, rules, recursive, path),
        }
    }
}

/// How one listed entry at `path` is judged: unreadable metadata stops the
/// scan; an entry that satisfies no rule is a violation; a satisfying
/// directory is entered when `recursive` is set, and everything else is
/// left alone.
pub open spec fn entry_outcome_spec(
    e: Entry,
    rules: Seq<RuleView>,
    recursive: bool,
    path: Seq<char>,
) -> (Seq<Seq<char>>, Option<IoErrorView>)
    decreases e, 1nat,
{
    match e.meta {
        None => (
            Seq::empty(),
            Some(IoErrorView { kind: IoErrorKind::MetadataUnavailable, path }),
        ),
        Some(m) => if !set_matches(rules, e.name@, m) {
            (seq![path], None)
        } else if m.kind is Dir && recursive {
            scan_spec(e, rules, recursive, path)
        } else {
            (Seq::empty(), None)
        },
    }
}

/// Judges the listed children of the directory at `dir_path` in order,
/// concatenating their violations; the first error stops the walk.
pub open spec fn scan_children_spec(
    cs: Seq<Entry>,
    rules: Seq<RuleView>,
    recursive: bool,
    dir_path: Seq<char>,
) -> (Seq<Seq<char>>, Option<IoErrorView>)
    decreases cs, 2nat,
{
    if cs.len() == 0 {
        (Seq::empty(), None)
    } else {
        let first = entry_outcome_spec(
            cs[0],
            rules,
            recursive,
            spec_child_path(dir_path, cs[0].name@),
        );
        if first.1 is Some {
            first
        } else {
            let rest = scan_children_spec(cs.drop_first(), rules, recursive, dir_path);
            (first.0 + rest.0, rest.1)
        }
    }
}

/// How many entries under the directory entry `e` satisfy no rule, counting
/// exactly the entries a scan judges: each listed child once, and the
/// contents of satisfying subdirectories when `recursive` is set.
pub open spec fn violation_count_spec(e: Entry, rules: Seq<RuleView>, recursive: bool) -> nat
    decreases e, 0nat,
{
    match e.children {
        Some(cs) => children_violation_count(cs@, rules, recursive),
        None => 0,
    }
}

/// How many violations judging the single entry `e` yields.
pub open spec fn entry_violation_count(e: Entry, rules: Seq<RuleView>, recursive: bool) -> nat
    decreases e, 1nat,
{
    match e.meta {
        None => 0,
        Some(m) => if !set_matches(rules, e.name@, m) {
            1
        } else if m.kind is Dir && recursive {
            violation_count_spec(e, rules, recursive)
        } else {
            0
        },
    }
}

/// How many violations the entries of `cs`, each judged once, yield in all.
pub open spec fn children_violation_count(
    cs: Seq<Entry>,
    rules: Seq<RuleView>,
    recursive: bool,
) -> nat
    decreases cs, 2nat,
{
    if cs.len() == 0 {
        0
    } else {
        entry_violation_count(cs[0], rules, recursive) + children_violation_count(
            cs.drop_first(),
            rules,
            recursive,
        )
    }
}

proof fn lemma_entry_outcome_counts(e: Entry, rules: Seq<RuleView>, recursive: bool, path: Seq<
    char,
>)
    requires
        entry_outcome_spec(e, rules, recursive, path).1 is None,
    ensures
        entry_outcome_spec(e, rules, recursive, path).0.len() == entry_violation_count(
            e,
            rules,
            recursive,
        ),
    decreases e, 1nat,
{
    match e.meta {
        None => {},
        Some(m) => {
            if set_matches(rules, e.name@, m) && m.kind is Dir && recursive {
                lemma_full_enumeration(e, rules, recursive, path);
            }
        },
    }
}

proof fn lemma_children_outcome_counts(
    cs: Seq<Entry>,
    rules: Seq<RuleView>,
    recursive: bool,
    dir_path: Seq<char>,
)
    requires
        scan_children_spec(cs, rules, recursive, dir_path).1 is None,
    ensures
        scan_children_spec(cs, rules, recursive, dir_path).0.len() == children_violation_count(
            cs,
            rules,
            recursive,
        ),
    decreases cs, 2nat,
{
    if cs.len() > 0 {
        lemma_entry_outcome_counts(
            cs[0],
            rules,
            recursive,
            spec_child_path(dir_path, cs[0].name@),
        );
        lemma_children_outcome_counts(cs.drop_first(), rules, recursive, dir_path);
    }
}

/// A scan that meets no error judges every entry it visits exactly once:
/// the violations it reports are exactly as many as the entries that satisfy
/// no rule, the contents of recursively-entered subdirectories included.
pub proof fn lemma_full_enumeration(
    e: Entry,
    rules: Seq<RuleView>,
    recursive: bool,
    path: Seq<char>,
)
    requires
        scan_spec(e, rules, recursive, path).1 is None,
    ensures
        scan_spec(e, rules, recursive, path).0.len() == violation_count_spec(e, rules, recursive),
    decreases e, 0nat,
{
    if e.meta matches Some(m) && m.kind is Dir {
        match e.children {
            Some(cs) => {
                lemma_children_outcome_counts(cs@, rules, recursive, path);
            },
            None => {},
        }
    }
}

/// Scans the directory snapshot `root`, judging every listed entry against
/// the rule set, appending the path of every entry that satisfies no rule to
/// `out` as it is found, and entering satisfying subdirectories when the
/// rule set is recursive. Returns whether the whole subtree is clean, or
/// the error that stopped the scan.
#[verifier::loop_isolation(false)]
pub fn scan(root: &Entry, path: &String, ruleset: &RuleSet, out: &mut Vec<String>) -> (r: Result<
    bool,
    IoError,
>)
    ensures
        ({
            let result = scan_spec(*root, ruleset@.rules, ruleset.recursive, path@);
            &&& string_views(final(out)@) == string_views(old(out)@) + result.0
            &&& (match r {
                Ok(clean) => result.1 is None && clean == (result.0.len() == 0),
                Err(e) => result.1 == Some(e@),
            })
        }),
    decreases *root,
{
    let meta_is_dir = match &root.meta {
        Some(m) => matches!(m.kind, EntryKind::Dir),
        None => false,
    };
    if !meta_is_dir {
        proof {
            assert(string_views(out@) =~= string_views(out@) + Seq::<Seq<char>>::empty());
        }
        return Err(IoError { kind: IoErrorKind::NotADirectory, path: path.clone() });
    }
    let children = match &root.children {
        Some(cs) => cs,
        None => {
            proof {
                assert(string_views(out@) =~= string_views(out@) + Seq::<Seq<char>>::empty());
            }
            return Err(IoError { kind: IoErrorKind::ListFailed, path: path.clone() });
        },
    };
    let ghost rules = ruleset@.rules;
    let ghost rec = ruleset.recursive;
    let mut clean = true;
    let mut i: usize = 0;
    let ghost mut done: Seq<Seq<char>> = Seq::empty();
    proof {
        assert(children@.skip(0) =~= children@);
        assert(string_views(out@) =~= string_views(out@) + done);
        let whole = scan_children_spec(children@, rules, rec, path@);
        assert(whole.0 =~= done + whole.0);
    }
    while i < children.len()
        invariant
            i <= children.len(),
            string_views(out@) == string_views(old(out)@) + done,
            clean == (done.len() == 0),
            ({
                let whole = scan_children_spec(children@, rules, rec, path@);
                let rest = scan_children_spec(children@.skip(i as int), rules, rec, path@);
                whole.0 == done + rest.0 && whole.1 == rest.1
            }),
        decreases children.len() - i,
    {
        proof {
            assert(children@.skip(i as int).drop_first() =~= children@.skip(i as int + 1));
            assert(children@.skip(i as int)[0] == children@[i as int]);
        }
        let child = &children[i];
        let mut cpath = path.clone();
        cpath.append("/");
        cpath.append(child.name.as_str());
        proof {
            reveal_strlit("/");
            assert("/"@ =~= seq!['/']);
            assert(cpath@ == spec_child_path(path@, child.name@));
        }
        let ghost cpv = cpath@;
        let ghost outcome = entry_outcome_spec(children@[i as int], rules, rec, cpv);
        match &child.meta {
            None => {
                proof {
                    assert(outcome == (
                        Seq::<Seq<char>>::empty(),
                        Some(IoErrorView { kind: IoErrorKind::MetadataUnavailable, path: cpv }),
                    ));
                    assert(done + Seq::<Seq<char>>::empty() =~= done);
                }
                return Err(IoError { kind: IoErrorKind::MetadataUnavailable, path: cpath });
            },
            Some(m) => {
                if !ruleset.judge(child.name.as_str(), m) {
                    let ghost before = out@;
                    out.push(cpath);
                    clean = false;
                    proof {
                        assert(outcome == (seq![cpv], Option::<IoErrorView>::None));
                        assert(string_views(out@) =~= string_views(before).push(cpv));
                        let done_old = done;
                        done = done + seq![cpv];
                        assert(string_views(out@) =~= string_views(old(out)@) + done);
                        let rest = scan_children_spec(
                            children@.skip(i as int + 1),
                            rules,
                            rec,
                            path@,
                        );
                        assert(done_old + (seq![cpv] + rest.0) =~= done + rest.0);
                    }
                } else {
                    let is_dir = matches!(m.kind, EntryKind::Dir);
                    if is_dir && ruleset.recursive {
                        proof {
                            assert(decreases_to!(*root => root.children));
                            assert(decreases_to!(root.children => root.children->0));
                            assert(decreases_to!(root.children->0 => root.children->0@));
                            assert(decreases_to!(root.children->0@ => root.children->0@[
                            i as int]));
                            assert(children@[i as int] == root.children->0@[i as int]);
                            assert(decreases_to!(*root => children@[i as int]));
                        }
                        let ghost done_old = done;
                        let ghost sub = scan_spec(children@[i as int], rules, rec, cpv);
                        match scan(child, &cpath, ruleset, out) {
                            Ok(sub_clean) => {
                                clean = clean && sub_clean;
                                proof {
                                    assert(outcome == sub);
                                    done = done + sub.0;
                                    assert(string_views(out@) =~= string_views(old(out)@)
                                        + done);
                                    let rest = scan_children_spec(
                                        children@.skip(i as int + 1),
                                        rules,
                                        rec,
                                        path@,
                                    );
                                    assert(done_old + (sub.0 + rest.0) =~= done + rest.0);
                                }
                            },
                            Err(e) => {
                                proof {
                                    assert(outcome == sub);
                                    assert(outcome.1 == Some(e@));
                                    let whole = scan_children_spec(children@, rules, rec, path@);
                                    assert(whole.0 =~= done_old + sub.0);
                                    assert(string_views(out@) =~= string_views(old(out)@)
                                        + whole.0);
                                }
                                return Err(e);
                            },
                        }
                    } else {
                        proof {
                            assert(outcome == (Seq::<Seq<char>>::empty(), Option::<
                                IoErrorView,
                            >::None));
                            let rest = scan_children_spec(
                                children@.skip(i as int + 1),
                                rules,
                                rec,
                                path@,
                            );
                            assert(done + (Seq::<Seq<char>>::empty() + rest.0) =~= done
                                + rest.0);
                        }
                    }
                }
            },
        }
        i = i + 1;
    }
    proof {
        assert(children@.skip(children@.len() as int) =~= Seq::<Entry>::empty());
        let whole = scan_children_spec(children@, rules, rec, path@);
        assert(whole.0 =~= done);
    }
    Ok(clean)
}

/// A worked run of the whole pipeline: from the configuration mapping
/// `{recursive: true, allow-name: ["README.md"]}` the builder yields a
/// recursive rule set whose appended directory rule lets the scan enter
/// subdirectories, and on the tree `{README.md, notes.txt, src/{a.rs}}` the
/// scan reports exactly `notes.txt` and `src/a.rs`, in that order.
pub proof fn lemma_recursive_allow_name_example(
    cfg: ConfigValue,
    root: Entry,
    e1: Entry,
    e2: Entry,
    e3: Entry,
    e4: Entry,
    p: Seq<char>,
)
    requires
        cfg matches ConfigValue::Mapping(pairs) && pairs@.len() == 2 && (
        pairs@[0].0 matches ConfigValue::Str(k) && k@ == "recursive"@) && pairs@[0].1
            == ConfigValue::Bool(true) && (pairs@[1].0 matches ConfigValue::Str(k) && k@
            == "allow-name"@) && (pairs@[1].1 matches ConfigValue::List(items) && items@.len() == 1
            && (items@[0] matches ConfigValue::Str(n) && n@ == "README.md"@)),
        root.meta matches Some(m) && m.kind is Dir,
        root.children matches Some(cs) && cs@ == seq![e1, e2, e3],
        e1.name@ == "README.md"@ && (e1.meta matches Some(m) && m.kind is File),
        e2.name@ == "notes.txt"@ && (e2.meta matches Some(m) && m.kind is File),
        e3.name@ == "src"@ && (e3.meta matches Some(m) && m.kind is Dir),
        e3.children matches Some(cs) && cs@ == seq![e4],
        e4.name@ == "a.rs"@ && (e4.meta matches Some(m) && m.kind is File),
    ensures
        build_spec(cfg) matches Ok(rs) && rs.recursive && scan_spec(root, rs.rules, true, p) == (
            seq![
                spec_child_path(p, "notes.txt"@),
                spec_child_path(spec_child_path(p, "src"@), "a.rs"@),
            ],
            Option::<IoErrorView>::None,
        ),
{
    reveal_strlit("recursive");
    reveal_strlit("allow-name");
    reveal_strlit("allow-type");
    reveal_strlit("README.md");
    reveal_strlit("notes.txt");
    reveal_strlit("src");
    reveal_strlit("a.rs");

    // The rule set the mapping describes.
    let pairs = cfg->Mapping_0@;
    assert(pairs.drop_first() =~= seq![pairs[1]]);
    assert(seq![pairs[1]].drop_first() =~= Seq::<(ConfigValue, ConfigValue)>::empty());
    assert("allow-name"@.len() == 10);
    assert("recursive"@.len() == 9);
    assert("allow-name"@ != "recursive"@);
    assert("allow-name"@[6] == 'n');
    assert("allow-type"@[6] == 't');
    assert("allow-name"@ != "allow-type"@);
    let items = pairs[1].1->List_0@;
    assert(items =~= seq![items[0]]);
    assert(seq![items[0]].drop_first() =~= Seq::<ConfigValue>::empty());
    assert(parse_names_spec(Seq::<ConfigValue>::empty()) == Ok::<_, ConfigErrorView>(
        Seq::<Seq<char>>::empty(),
    ));
    assert(seq!["README.md"@] + Seq::<Seq<char>>::empty() =~= seq!["README.md"@]);
    assert(parse_names_spec(items) == Ok::<_, ConfigErrorView>(seq!["README.md"@]));
    let name_rule = RuleView::AllowName(seq!["README.md"@]);
    let rules1 = seq![name_rule];
    assert(Seq::<RuleView>::empty().push(name_rule) =~= rules1);
    assert(build_pairs(Seq::<(ConfigValue, ConfigValue)>::empty(), true, rules1)
        == Ok::<_, ConfigErrorView>((true, rules1)));
    assert(build_pairs(seq![pairs[1]], true, Seq::<RuleView>::empty())
        == Ok::<_, ConfigErrorView>((true, rules1)));
    assert(build_pairs(pairs, true, Seq::<RuleView>::empty()) == Ok::<_, ConfigErrorView>((
        true,
        rules1,
    )));
    assert forall|i: int| 0 <= i < rules1.len() implies !rule_allows_dir(rules1[i]) by {}
    assert(!has_dir_rule(rules1));
    let dir_rule = RuleView::AllowType(seq![EntryTypeView::Dir]);
    let rules = rules1.push(dir_rule);
    assert(add_dir_rule(rules1) == rules);
    assert(build_spec(cfg) matches Ok(rs) && rs.recursive && rs.rules == rules);
    assert(rules[0] == name_rule);
    assert(rules[1] == dir_rule);

    // How each entry is judged against the two rules.
    assert(seq!["README.md"@][0] == "README.md"@);
    assert(any_name_matches(seq!["README.md"@], e1.name@));
    assert(set_matches(rules, e1.name@, e1.meta->0));

    assert("README.md"@[0] == 'R');
    assert("notes.txt"@[0] == 'n');
    assert("README.md"@ != "notes.txt"@);
    assert("src"@.len() == 3);
    assert("a.rs"@.len() == 4);
    assert("README.md"@.len() == 9);
    assert("README.md"@ != "src"@);
    assert("README.md"@ != "a.rs"@);
    assert forall|j: int| 0 <= j < 1 implies seq!["README.md"@][j] != e2.name@ by {}
    assert(!any_name_matches(seq!["README.md"@], e2.name@));
    assert forall|j: int| 0 <= j < 1 implies !type_matches(
        seq![EntryTypeView::Dir][j],
        e2.name@,
        e2.meta->0,
    ) by {}
    assert(!any_type_matches(seq![EntryTypeView::Dir], e2.name@, e2.meta->0));
    assert forall|i: int| 0 <= i < rules.len() implies !rule_matches(
        rules[i],
        e2.name@,
        e2.meta->0,
    ) by {}
    assert(!set_matches(rules, e2.name@, e2.meta->0));

    assert(type_matches(seq![EntryTypeView::Dir][0], e3.name@, e3.meta->0));
    assert(any_type_matches(seq![EntryTypeView::Dir], e3.name@, e3.meta->0));
    assert(rule_matches(rules[1], e3.name@, e3.meta->0));
    assert(set_matches(rules, e3.name@, e3.meta->0));

    assert forall|j: int| 0 <= j < 1 implies seq!["README.md"@][j] != e4.name@ by {}
    assert(!any_name_matches(seq!["README.md"@], e4.name@));
    assert forall|j: int| 0 <= j < 1 implies !type_matches(
        seq![EntryTypeView::Dir][j],
        e4.name@,
        e4.meta->0,
    ) by {}
    assert(!any_type_matches(seq![EntryTypeView::Dir], e4.name@, e4.meta->0));
    assert forall|i: int| 0 <= i < rules.len() implies !rule_matches(
        rules[i],
        e4.name@,
        e4.meta->0,
    ) by {}
    assert(!set_matches(rules, e4.name@, e4.meta->0));

    // The scan of src/, bottom up.
    let p2 = spec_child_path(p, "notes.txt"@);
    let p3 = spec_child_path(p, "src"@);
    let p4 = spec_child_path(p3, "a.rs"@);
    assert(scan_children_spec(Seq::<Entry>::empty(), rules, true, p3) == (
        Seq::<Seq<char>>::empty(),
        Option::<IoErrorView>::None,
    ));
    assert(entry_outcome_spec(e4, rules, true, p4) == (seq![p4], Option::<IoErrorView>::None));
    assert(seq![e4].drop_first() =~= Seq::<Entry>::empty());
    assert(seq![e4][0] == e4);
    assert(seq![p4] + Seq::<Seq<char>>::empty() =~= seq![p4]);
    assert(scan_children_spec(seq![e4], rules, true, p3) == (
        seq![p4],
        Option::<IoErrorView>::None,
    ));
    assert(scan_spec(e3, rules, true, p3) == (seq![p4], Option::<IoErrorView>::None));

    // The scan of the root's children, back to front.
    let cs = root.children->0@;
    assert(cs.drop_first() =~= seq![e2, e3]);
    assert(seq![e2, e3].drop_first() =~= seq![e3]);
    assert(seq![e3].drop_first() =~= Seq::<Entry>::empty());
    assert(scan_children_spec(Seq::<Entry>::empty(), rules, true, p) == (
        Seq::<Seq<char>>::empty(),
        Option::<IoErrorView>::None,
    ));
    assert(entry_outcome_spec(e3, rules, true, p3) == (seq![p4], Option::<IoErrorView>::None));
    assert(seq![e3][0] == e3);
    assert(seq![p4] + Seq::<Seq<char>>::empty() =~= seq![p4]);
    assert(scan_children_spec(seq![e3], rules, true, p) == (
        seq![p4],
        Option::<IoErrorView>::None,
    ));
    assert(entry_outcome_spec(e2, rules, true, p2) == (seq![p2], Option::<IoErrorView>::None));
    assert(seq![e2, e3][0] == e2);
    assert(seq![p2] + seq![p4] =~= seq![p2, p4]);
    assert(scan_children_spec(seq![e2, e3], rules, true, p) == (
        seq![p2, p4],
        Option::<IoErrorView>::None,
    ));
    assert(entry_outcome_spec(e1, rules, true, spec_child_path(p, e1.name@)) == (
        Seq::<Seq<char>>::empty(),
        Option::<IoErrorView>::None,
    ));
    assert(cs[0] == e1);
    assert(Seq::<Seq<char>>::empty() + seq![p2, p4] =~= seq![p2, p4]);
    assert(scan_children_spec(cs, rules, true, p) == (seq![p2, p4], Option::<IoErrorView>::None));
    assert(scan_spec(root, rules, true, p) == (seq![p2, p4], Option::<IoErrorView>::None));
}


} // verus!
