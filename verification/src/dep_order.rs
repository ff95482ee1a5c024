//! The order of dependencies and of packages.

use crate::compile::{CompileKind, CompileMode};
use crate::interning::InternedString;
use crate::package::{target_values, Package, PackageId, PackageView};
use crate::profiles::PanicSetting;
use crate::target::{Target, TargetKind, TargetView};
use crate::unit::{dep_values, Unit, UnitDep, UnitDepView, UnitView};
use vstd::prelude::*;
use vstd::relations::{sorted_by, total_ordering};

verus! {

/// Dictionary order of two words.
pub open spec fn lex_le(a: Seq<u64>, b: Seq<u64>) -> bool
    decreases a.len(),
{
    if a.len() == 0 {
        true
    } else if b.len() == 0 {
        false
    } else if a[0] != b[0] {
        a[0] < b[0]
    } else {
        lex_le(a.drop_first(), b.drop_first())
    }
}

proof fn lemma_lex_total(a: Seq<u64>, b: Seq<u64>)
    ensures
        lex_le(a, b) || lex_le(b, a),
        lex_le(a, b) && lex_le(b, a) ==> a == b,
        lex_le(a, a),
    decreases a.len(),
{
    if a.len() > 0 {
        lemma_lex_total(a.drop_first(), a.drop_first());
        if b.len() > 0 && a[0] == b[0] {
            lemma_lex_total(a.drop_first(), b.drop_first());
            if lex_le(a, b) && lex_le(b, a) {
                assert(a =~= seq![a[0]] + a.drop_first());
                assert(b =~= seq![b[0]] + b.drop_first());
            }
        }
    } else if b.len() == 0 {
        assert(a =~= b);
    }
}

proof fn lemma_lex_transitive(a: Seq<u64>, b: Seq<u64>, c: Seq<u64>)
    requires
        lex_le(a, b),
        lex_le(b, c),
    ensures
        lex_le(a, c),
    decreases a.len(),
{
    if a.len() > 0 && b.len() > 0 && c.len() > 0 && a[0] == b[0] && b[0] == c[0] {
        lemma_lex_transitive(a.drop_first(), b.drop_first(), c.drop_first());
    }
}

/// Compares two words.
fn le_words(a: &Vec<u64>, b: &Vec<u64>) -> (le: bool)
    ensures
        le == lex_le(a@, b@),
{
    let mut i: usize = 0;
    assert(a@.skip(0) =~= a@);
    assert(b@.skip(0) =~= b@);
    while i < a.len() && i < b.len() && a[i] == b[i]
        invariant
            i <= a@.len(),
            i <= b@.len(),
            lex_le(a@, b@) == lex_le(a@.skip(i as int), b@.skip(i as int)),
        decreases a@.len() - i,
    {
        assert(a@.skip(i as int).drop_first() =~= a@.skip(i + 1));
        assert(b@.skip(i as int).drop_first() =~= b@.skip(i + 1));
        i = i + 1;
    }
    if i == a.len() {
        true
    } else if i == b.len() {
        false
    } else {
        a[i] < b[i]
    }
}

/// A truth value as a letter.
pub open spec fn flag(b: bool) -> u64 {
    if b {
        1
    } else {
        0
    }
}

fn flag_letter(b: bool) -> (letter: u64)
    ensures
        letter == flag(b),
{
    if b {
        1
    } else {
        0
    }
}

/// A list of names as a word that ends in 0 and nowhere else holds one, so that
/// dictionary order of words is dictionary order of lists.
pub open spec fn names_word(names: Seq<InternedString>) -> Seq<u64> {
    Seq::new(
        names.len() + 1,
        |i: int|
            if i < names.len() {
                (names[i].sym + 1) as u64
            } else {
                0
            },
    )
}

pub open spec fn optional_names_word(names: Option<Seq<InternedString>>) -> Seq<u64> {
    match names {
        Some(names) => seq![1u64] + names_word(names),
        None => seq![0u64],
    }
}

pub open spec fn package_word(pkg: PackageId) -> Seq<u64> {
    seq![
        pkg.name.sym as u64,
        pkg.version as u64,
        pkg.source.id as u64,
        flag(pkg.source.is_path),
    ]
}

pub open spec fn target_kind_letter(kind: TargetKind) -> u64 {
    match kind {
        TargetKind::Lib { linkable } => flag(linkable),
        TargetKind::Bin => 2,
        TargetKind::Test => 3,
        TargetKind::Bench => 4,
        TargetKind::Example => 5,
        TargetKind::CustomBuild => 6,
    }
}

pub open spec fn kind_word(kind: CompileKind) -> Seq<u64> {
    match kind {
        CompileKind::Host => seq![0u64, 0u64],
        CompileKind::Target(target) => seq![1u64, target.name.sym as u64],
    }
}

pub open spec fn mode_letter(mode: CompileMode) -> u64 {
    match mode {
        CompileMode::Test => 0,
        CompileMode::Build => 1,
        CompileMode::Check { test } => if test {
            3
        } else {
            2
        },
        CompileMode::Bench => 4,
        CompileMode::Doc { deps } => if deps {
            6
        } else {
            5
        },
        CompileMode::Doctest => 7,
        CompileMode::Docscrape => 8,
        CompileMode::RunCustomBuild => 9,
    }
}

pub open spec fn panic_letter(setting: PanicSetting) -> u64 {
    match setting {
        PanicSetting::AlwaysUnwind => 0,
        PanicSetting::ReadProfile => 1,
        PanicSetting::Inherit => 2,
    }
}

/// The letters that name the package and the target of a unit, but for the
/// features that the target requires.
pub open spec fn target_letters(unit: UnitView) -> Seq<u64> {
    package_word(unit.pkg.id) + target_head(unit.target)
}

/// The letters that say how a unit is compiled, but for its features.
pub open spec fn compile_letters(unit: UnitView) -> Seq<u64> {
    seq![unit.profile.id as u64] + kind_word(unit.kind) + seq![mode_letter(unit.mode)]
}

/// The letters of a dependency behind those of its unit's features.
pub open spec fn dep_letters(dep: UnitDepView) -> Seq<u64> {
    seq![
        flag(dep.unit.is_std),
        dep.unit.dep_hash,
        flag(dep.unit_for.host),
        flag(dep.unit_for.host_features),
        panic_letter(dep.unit_for.panic_setting),
        dep.extern_crate_name.sym as u64,
        flag(dep.public),
        flag(dep.noprelude),
    ]
}

/// The letters of a target, but for the features that it requires.
pub open spec fn target_head(target: TargetView) -> Seq<u64> {
    seq![
        target.crate_name.sym as u64,
        target_kind_letter(target.kind),
        flag(target.for_host),
        flag(target.proc_macro),
    ]
}

pub open spec fn target_word(target: TargetView) -> Seq<u64> {
    target_head(target) + optional_names_word(target.required_features)
}

/// A list of targets as a word: 1 before each of them, and 0 at the end.
pub open spec fn targets_word(targets: Seq<TargetView>) -> Seq<u64>
    decreases targets.len(),
{
    if targets.len() == 0 {
        seq![0u64]
    } else {
        seq![1u64] + (target_word(targets[0]) + targets_word(targets.drop_first()))
    }
}

/// The native library that a package links to, as a word.
pub open spec fn links_word(links: Option<InternedString>) -> Seq<u64> {
    match links {
        Some(name) => seq![1u64, name.sym as u64],
        None => seq![0u64, 0u64],
    }
}

/// What a package holds besides its identity, as a word.
pub open spec fn contents_word(pkg: PackageView) -> Seq<u64> {
    links_word(pkg.links) + targets_word(pkg.targets)
}

/// The word by which a dependency is sorted: all its fields, one after the
/// other. Packages are told apart by their identity, so what else they hold comes
/// last.
pub open spec fn dep_word(dep: UnitDepView) -> Seq<u64> {
    target_letters(dep.unit) + (optional_names_word(dep.unit.target.required_features) + (
    compile_letters(dep.unit) + (names_word(dep.unit.features) + (dep_letters(dep)
        + contents_word(dep.unit.pkg)))))
}

/// The order of dependencies in a list.
pub open spec fn dep_le() -> spec_fn(UnitDepView, UnitDepView) -> bool {
    |a: UnitDepView, b: UnitDepView| lex_le(dep_word(a), dep_word(b))
}

/// Words that start with parts of the same length are equal only if both parts
/// are.
proof fn lemma_cut(a: Seq<u64>, b: Seq<u64>, x: Seq<u64>, y: Seq<u64>)
    requires
        a.len() == b.len(),
        a + x == b + y,
    ensures
        a == b,
        x == y,
{
    assert(a =~= (a + x).take(a.len() as int));
    assert(b =~= (b + y).take(b.len() as int));
    assert(x =~= (a + x).skip(a.len() as int));
    assert(y =~= (b + y).skip(b.len() as int));
}

/// A list of names can be read back from the front of a word.
proof fn lemma_cut_names(
    a: Seq<InternedString>,
    b: Seq<InternedString>,
    x: Seq<u64>,
    y: Seq<u64>,
)
    requires
        names_word(a) + x == names_word(b) + y,
    ensures
        a == b,
        x == y,
{
    let (u, v) = (names_word(a) + x, names_word(b) + y);
    if a.len() < b.len() {
        assert(u[a.len() as int] == 0);
        assert(v[a.len() as int] == (b[a.len() as int].sym + 1) as u64);
    } else if b.len() < a.len() {
        assert(v[b.len() as int] == 0);
        assert(u[b.len() as int] == (a[b.len() as int].sym + 1) as u64);
    }
    lemma_cut(names_word(a), names_word(b), x, y);
    assert forall|i: int| 0 <= i < a.len() implies a[i] == b[i] by {
        assert(names_word(a)[i] == names_word(b)[i]);
    }
    assert(a =~= b);
}

/// An optional list of names can be read back from the front of a word.
proof fn lemma_cut_optional_names(
    a: Option<Seq<InternedString>>,
    b: Option<Seq<InternedString>>,
    x: Seq<u64>,
    y: Seq<u64>,
)
    requires
        optional_names_word(a) + x == optional_names_word(b) + y,
    ensures
        a == b,
        x == y,
{
    let (u, v) = (optional_names_word(a) + x, optional_names_word(b) + y);
    assert(u[0] == optional_names_word(a)[0]);
    assert(v[0] == optional_names_word(b)[0]);
    match (a, b) {
        (Some(p), Some(q)) => {
            assert(u =~= seq![1u64] + (names_word(p) + x));
            assert(v =~= seq![1u64] + (names_word(q) + y));
            lemma_cut(seq![1u64], seq![1u64], names_word(p) + x, names_word(q) + y);
            lemma_cut_names(p, q, x, y);
        },
        (None, None) => {
            lemma_cut(seq![0u64], seq![0u64], x, y);
        },
        _ => {},
    }
}

/// A list of targets can be read back from the front of a word.
proof fn lemma_cut_targets(a: Seq<TargetView>, b: Seq<TargetView>, x: Seq<u64>, y: Seq<u64>)
    requires
        targets_word(a) + x == targets_word(b) + y,
    ensures
        a == b,
        x == y,
    decreases a.len(),
{
    let (u, v) = (targets_word(a) + x, targets_word(b) + y);
    assert(u[0] == targets_word(a)[0]);
    assert(v[0] == targets_word(b)[0]);
    if a.len() == 0 || b.len() == 0 {
        assert(a.len() == 0 && b.len() == 0);
        lemma_cut(seq![0u64], seq![0u64], x, y);
        assert(a =~= b);
    } else {
        let (s, t) = (a[0], b[0]);
        let (ra, rb) = (targets_word(a.drop_first()) + x, targets_word(b.drop_first()) + y);
        let (ha, hb) = (target_head(s), target_head(t));
        let (oa, ob) = (
            optional_names_word(s.required_features),
            optional_names_word(t.required_features),
        );
        assert(u =~= seq![1u64] + (ha + (oa + ra)));
        assert(v =~= seq![1u64] + (hb + (ob + rb)));
        lemma_cut(seq![1u64], seq![1u64], ha + (oa + ra), hb + (ob + rb));
        lemma_cut(ha, hb, oa + ra, ob + rb);
        lemma_cut_optional_names(s.required_features, t.required_features, ra, rb);
        assert(ha[0] == hb[0] && ha[1] == hb[1] && ha[2] == hb[2] && ha[3] == hb[3]);
        assert(s == t);
        lemma_cut_targets(a.drop_first(), b.drop_first(), x, y);
        assert(a =~= seq![s] + a.drop_first());
        assert(b =~= seq![t] + b.drop_first());
    }
}

/// What a package holds besides its identity can be read back from its word.
proof fn lemma_cut_contents(a: PackageView, b: PackageView)
    requires
        contents_word(a) == contents_word(b),
    ensures
        a.links == b.links,
        a.targets == b.targets,
{
    let (la, lb) = (links_word(a.links), links_word(b.links));
    lemma_cut(la, lb, targets_word(a.targets), targets_word(b.targets));
    assert(la[0] == lb[0] && la[1] == lb[1]);
    let none = Seq::<u64>::empty();
    assert(targets_word(a.targets) + none =~= targets_word(a.targets));
    assert(targets_word(b.targets) + none =~= targets_word(b.targets));
    lemma_cut_targets(a.targets, b.targets, none, none);
}

/// Dependencies with the same word are the same.
pub proof fn lemma_word_tells_apart(a: UnitDepView, b: UnitDepView)
    requires
        dep_word(a) == dep_word(b),
    ensures
        a == b,
{
    let (ta, tb) = (target_letters(a.unit), target_letters(b.unit));
    let (ra, rb) = (
        optional_names_word(a.unit.target.required_features),
        optional_names_word(b.unit.target.required_features),
    );
    let (ca, cb) = (compile_letters(a.unit), compile_letters(b.unit));
    let (fa, fb) = (names_word(a.unit.features), names_word(b.unit.features));
    let (da, db) = (dep_letters(a), dep_letters(b));
    let (pa, pb) = (contents_word(a.unit.pkg), contents_word(b.unit.pkg));
    lemma_cut(ta, tb, ra + (ca + (fa + (da + pa))), rb + (cb + (fb + (db + pb))));
    lemma_cut_optional_names(
        a.unit.target.required_features,
        b.unit.target.required_features,
        ca + (fa + (da + pa)),
        cb + (fb + (db + pb)),
    );
    lemma_cut(ca, cb, fa + (da + pa), fb + (db + pb));
    lemma_cut_names(a.unit.features, b.unit.features, da + pa, db + pb);
    lemma_cut(da, db, pa, pb);
    lemma_cut_contents(a.unit.pkg, b.unit.pkg);
    assert(ta[0] == tb[0] && ta[1] == tb[1] && ta[2] == tb[2] && ta[3] == tb[3]);
    assert(ta[4] == tb[4] && ta[5] == tb[5] && ta[6] == tb[6] && ta[7] == tb[7]);
    assert(ca[0] == cb[0] && ca[1] == cb[1] && ca[2] == cb[2] && ca[3] == cb[3]);
    assert(da[0] == db[0] && da[1] == db[1] && da[2] == db[2] && da[3] == db[3]);
    assert(da[4] == db[4] && da[5] == db[5] && da[6] == db[6] && da[7] == db[7]);
    assert(a.unit.pkg.id == b.unit.pkg.id);
    assert(a.unit.pkg == b.unit.pkg);
    assert(a.unit.target == b.unit.target);
    assert(a.unit.kind == b.unit.kind);
    assert(a.unit.mode == b.unit.mode);
    assert(a.unit == b.unit);
    assert(a.unit_for == b.unit_for);
}

/// Any two dependencies stand in one order, and only equal ones in both.
pub proof fn lemma_dep_order()
    ensures
        total_ordering(dep_le()),
{
    let le = dep_le();
    assert forall|a: UnitDepView, b: UnitDepView| #[trigger] le(a, b) || le(b, a) by {
        lemma_lex_total(dep_word(a), dep_word(b));
    }
    assert forall|a: UnitDepView, b: UnitDepView| #[trigger]
        le(a, b) && #[trigger] le(b, a) implies a == b by {
        lemma_lex_total(dep_word(a), dep_word(b));
        lemma_word_tells_apart(a, b);
    }
    assert forall|a: UnitDepView, b: UnitDepView, c: UnitDepView| #[trigger]
        le(a, b) && #[trigger] le(b, c) implies le(a, c) by {
        lemma_lex_transitive(dep_word(a), dep_word(b), dep_word(c));
    }
    assert forall|a: UnitDepView| #[trigger] le(a, a) by {
        lemma_lex_total(dep_word(a), dep_word(a));
    }
}

fn push_names(word: &mut Vec<u64>, names: &Vec<InternedString>)
    ensures
        final(word)@ == old(word)@ + names_word(names@),
{
    let ghost before = word@;
    for i in 0..names.len()
        invariant
            word@ == before + names_word(names@).take(i as int),
    {
        word.push(names[i].sym as u64 + 1);
        assert(names_word(names@).take(i + 1) =~= names_word(names@).take(i as int).push(
            names_word(names@)[i as int],
        ));
        assert(word@ =~= before + names_word(names@).take(i + 1));
    }
    word.push(0);
    assert(word@ =~= before + names_word(names@));
}

fn mode_letter_of(mode: CompileMode) -> (letter: u64)
    ensures
        letter == mode_letter(mode),
{
    match mode {
        CompileMode::Test => 0,
        CompileMode::Build => 1,
        CompileMode::Check { test } => if test {
            3
        } else {
            2
        },
        CompileMode::Bench => 4,
        CompileMode::Doc { deps } => if deps {
            6
        } else {
            5
        },
        CompileMode::Doctest => 7,
        CompileMode::Docscrape => 8,
        CompileMode::RunCustomBuild => 9,
    }
}

fn target_kind_letter_of(kind: TargetKind) -> (letter: u64)
    ensures
        letter == target_kind_letter(kind),
{
    match kind {
        TargetKind::Lib { linkable } => flag_letter(linkable),
        TargetKind::Bin => 2,
        TargetKind::Test => 3,
        TargetKind::Bench => 4,
        TargetKind::Example => 5,
        TargetKind::CustomBuild => 6,
    }
}

fn panic_letter_of(setting: PanicSetting) -> (letter: u64)
    ensures
        letter == panic_letter(setting),
{
    match setting {
        PanicSetting::AlwaysUnwind => 0,
        PanicSetting::ReadProfile => 1,
        PanicSetting::Inherit => 2,
    }
}

fn push_target(word: &mut Vec<u64>, unit: &Unit)
    ensures
        final(word)@ == old(word)@ + target_letters(unit@),
{
    word.push(unit.pkg.id.name.sym as u64);
    word.push(unit.pkg.id.version as u64);
    word.push(unit.pkg.id.source.id as u64);
    word.push(flag_letter(unit.pkg.id.source.is_path));
    word.push(unit.target.crate_name.sym as u64);
    word.push(target_kind_letter_of(unit.target.kind));
    word.push(flag_letter(unit.target.for_host));
    word.push(flag_letter(unit.target.proc_macro));
    assert(word@ =~= old(word)@ + target_letters(unit@));
}

fn push_optional_names(word: &mut Vec<u64>, names: &Option<Vec<InternedString>>)
    ensures
        final(word)@ == old(word)@ + optional_names_word(
            match *names {
                Some(names) => Some(names@),
                None => None,
            },
        ),
{
    match names {
        Some(names) => {
            word.push(1);
            push_names(word, names);
            assert(word@ =~= old(word)@ + (seq![1u64] + names_word(names@)));
        },
        None => {
            word.push(0);
            assert(word@ =~= old(word)@ + seq![0u64]);
        },
    }
}

fn push_compile(word: &mut Vec<u64>, unit: &Unit)
    ensures
        final(word)@ == old(word)@ + compile_letters(unit@),
{
    word.push(unit.profile.id as u64);
    match unit.kind {
        CompileKind::Host => {
            word.push(0);
            word.push(0);
        },
        CompileKind::Target(target) => {
            word.push(1);
            word.push(target.name.sym as u64);
        },
    }
    word.push(mode_letter_of(unit.mode));
    assert(word@ =~= old(word)@ + compile_letters(unit@));
}

fn push_dep(word: &mut Vec<u64>, dep: &UnitDep)
    ensures
        final(word)@ == old(word)@ + dep_letters(dep@),
{
    word.push(flag_letter(dep.unit.is_std));
    word.push(dep.unit.dep_hash);
    word.push(flag_letter(dep.unit_for.host));
    word.push(flag_letter(dep.unit_for.host_features));
    word.push(panic_letter_of(dep.unit_for.panic_setting));
    word.push(dep.extern_crate_name.sym as u64);
    word.push(flag_letter(dep.public));
    word.push(flag_letter(dep.noprelude));
    assert(word@ =~= old(word)@ + dep_letters(dep@));
}

fn push_targets(word: &mut Vec<u64>, targets: &Vec<Target>)
    ensures
        final(word)@ == old(word)@ + targets_word(target_values(targets@)),
{
    let ghost all = target_values(targets@);
    let ghost whole = word@ + targets_word(all);
    assert(all.skip(0) =~= all);
    for i in 0..targets.len()
        invariant
            all == target_values(targets@),
            word@ + targets_word(all.skip(i as int)) == whole,
    {
        let ghost before = word@;
        let ghost rest = all.skip(i as int);
        let ghost t = all[i as int];
        assert(t == targets@[i as int]@);
        word.push(1);
        word.push(targets[i].crate_name.sym as u64);
        word.push(target_kind_letter_of(targets[i].kind));
        word.push(flag_letter(targets[i].for_host));
        word.push(flag_letter(targets[i].proc_macro));
        push_optional_names(word, &targets[i].required_features);
        proof {
            assert(rest[0] == t);
            assert(rest.drop_first() =~= all.skip(i + 1));
            let next = targets_word(all.skip(i + 1));
            let names = optional_names_word(t.required_features);
            assert(word@ =~= before + (seq![1u64] + (target_head(t) + names)));
            assert(word@ + next =~= before + (seq![1u64] + (target_word(t) + next)));
        }
    }
    word.push(0);
    assert(all.skip(all.len() as int).len() == 0);
}

fn push_contents(word: &mut Vec<u64>, pkg: &Package)
    ensures
        final(word)@ == old(word)@ + contents_word(pkg@),
{
    match pkg.links {
        Some(name) => {
            word.push(1);
            word.push(name.sym as u64);
        },
        None => {
            word.push(0);
            word.push(0);
        },
    }
    assert(word@ =~= old(word)@ + links_word(pkg.links));
    push_targets(word, &pkg.targets);
    assert(word@ =~= old(word)@ + contents_word(pkg@));
}

/// Parts of a word may be joined in any grouping.
proof fn lemma_joined(
    a: Seq<u64>,
    b: Seq<u64>,
    c: Seq<u64>,
    d: Seq<u64>,
    e: Seq<u64>,
    f: Seq<u64>,
)
    ensures
        a + b + c + d + e + f == a + (b + (c + (d + (e + f)))),
{
    assert(a + b + c + d + e + f =~= a + (b + (c + (d + (e + f)))));
}

/// The word by which a dependency is sorted.
fn word_of(dep: &UnitDep) -> (word: Vec<u64>)
    ensures
        word@ == dep_word(dep@),
{
    let mut word: Vec<u64> = Vec::new();
    push_target(&mut word, &dep.unit);
    assert(word@ =~= target_letters(dep.unit@));
    push_optional_names(&mut word, &dep.unit.target.required_features);
    push_compile(&mut word, &dep.unit);
    push_names(&mut word, &dep.unit.features);
    push_dep(&mut word, dep);
    push_contents(&mut word, &dep.unit.pkg);
    proof {
        lemma_joined(
            target_letters(dep@.unit),
            optional_names_word(dep@.unit.target.required_features),
            compile_letters(dep@.unit),
            names_word(dep@.unit.features),
            dep_letters(dep@),
            contents_word(dep@.unit.pkg),
        );
    }
    word
}

/// Whether `a` may stand before `b`.
pub fn le_deps(a: &UnitDep, b: &UnitDep) -> (le: bool)
    ensures
        le == dep_le()(a@, b@),
{
    let x: Vec<u64> = word_of(a);
    let y: Vec<u64> = word_of(b);
    le_words(&x, &y)
}

/// The order of packages: by name, then version, then source.
pub open spec fn package_le(a: PackageId, b: PackageId) -> bool {
    lex_le(package_word(a), package_word(b))
}

/// Any two packages stand in one order, and only equal ones in both.
pub proof fn lemma_package_order(a: PackageId, b: PackageId)
    ensures
        package_le(a, b) || package_le(b, a),
        package_le(a, b) && package_le(b, a) ==> a == b,
{
    let (x, y) = (package_word(a), package_word(b));
    lemma_lex_total(x, y);
    if package_le(a, b) && package_le(b, a) {
        assert(x[0] == y[0] && x[1] == y[1] && x[2] == y[2] && x[3] == y[3]);
    }
}

/// The order of packages goes from step to step.
pub proof fn lemma_package_order_transitive(a: PackageId, b: PackageId, c: PackageId)
    requires
        package_le(a, b),
        package_le(b, c),
    ensures
        package_le(a, c),
{
    lemma_lex_transitive(package_word(a), package_word(b), package_word(c));
}

fn word_of_package(pkg: PackageId) -> (word: Vec<u64>)
    ensures
        word@ == package_word(pkg),
{
    let mut word: Vec<u64> = Vec::new();
    word.push(pkg.name.sym as u64);
    word.push(pkg.version as u64);
    word.push(pkg.source.id as u64);
    word.push(flag_letter(pkg.source.is_path));
    assert(word@ =~= package_word(pkg));
    word
}

/// Whether package `a` comes before `b`, or is the same.
pub fn le_packages(a: PackageId, b: PackageId) -> (le: bool)
    ensures
        le == package_le(a, b),
{
    let x: Vec<u64> = word_of_package(a);
    let y: Vec<u64> = word_of_package(b);
    le_words(&x, &y)
}

/// Puts a dependency in its place in a sorted list.
fn insert_sorted(deps: &mut Vec<UnitDep>, dep: UnitDep)
    requires
        sorted_by(dep_values(old(deps)@), dep_le()),
    ensures
        sorted_by(dep_values(final(deps)@), dep_le()),
        dep_values(final(deps)@).to_multiset() == dep_values(old(deps)@).to_multiset().insert(dep@),
{
    let ghost d = dep@;
    let ghost before = dep_values(deps@);
    let ghost le = dep_le();
    proof {
        lemma_dep_order();
    }
    let mut i: usize = 0;
    while i < deps.len() && le_deps(&deps[i], &dep)
        invariant
            i <= deps@.len(),
            d == dep@,
            le == dep_le(),
            before == dep_values(deps@),
            forall|j: int| 0 <= j < i ==> le(#[trigger] before[j], d),
        decreases deps@.len() - i,
    {
        assert(before[i as int] == deps@[i as int]@);
        i = i + 1;
    }
    proof {
        if i < deps@.len() {
            assert(before[i as int] == deps@[i as int]@);
            assert(le(d, before[i as int]));
        }
    }
    deps.insert(i, dep);
    proof {
        let after = dep_values(deps@);
        assert(after =~= before.insert(i as int, d));
        vstd::seq_lib::to_multiset_insert(before, i as int, d);
        assert forall|j: int| i <= j < before.len() implies le(d, #[trigger] before[j]) by {
            if i < j {
                assert(le(before[i as int], before[j]));
            }
        }
        assert forall|j: int, k: int| 0 <= j < k < after.len() implies #[trigger] le(
            after[j],
            after[k],
        ) by {
            if j < i && k < i {
                assert(le(before[j], before[k]));
            } else if j < i && k > i {
                assert(le(before[j], before[k - 1]));
            } else if j > i {
                assert(le(before[j - 1], before[k - 1]));
            } else if j < i {
                assert(le(before[j], d));
            } else {
                assert(le(d, before[k - 1]));
            }
        }
    }
}

/// Sorts a list of dependencies.
///
/// Dependencies are used throughout a build, in ways that affect whether its
/// output can be reproduced, so their lists are kept in one order.
pub fn sort_deps(mut deps: Vec<UnitDep>) -> (sorted: Vec<UnitDep>)
    ensures
        sorted_by(dep_values(sorted@), dep_le()),
        dep_values(sorted@).to_multiset() == dep_values(deps@).to_multiset(),
{
    broadcast use vstd::multiset::group_multiset_axioms;

    let ghost all = dep_values(deps@).to_multiset();
    let mut sorted: Vec<UnitDep> = Vec::new();
    let ghost none = dep_values(sorted@);
    assert(none =~= Seq::<UnitDepView>::empty());
    proof {
        none.to_multiset_ensures();
    }
    assert(none.to_multiset() =~= vstd::multiset::Multiset::empty());
    while deps.len() > 0
        invariant
            sorted_by(dep_values(sorted@), dep_le()),
            dep_values(sorted@).to_multiset().add(dep_values(deps@).to_multiset()) == all,
        decreases deps@.len(),
    {
        let ghost rest = dep_values(deps@);
        let dep: UnitDep = deps.pop().unwrap();
        proof {
            assert(rest =~= dep_values(deps@).push(dep@));
            vstd::seq_lib::to_multiset_build(dep_values(deps@), dep@);
        }
        let ghost so_far = dep_values(sorted@);
        insert_sorted(&mut sorted, dep);
        assert(dep_values(sorted@).to_multiset().add(dep_values(deps@).to_multiset()) =~= all);
    }
    proof {
        dep_values(deps@).to_multiset_ensures();
        assert(dep_values(deps@).to_multiset() =~= vstd::multiset::Multiset::empty());
        assert(dep_values(sorted@).to_multiset() =~= all);
    }
    sorted
}

} // verus!
