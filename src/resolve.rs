//! Applying the sources to a store in precedence order, with the
//! diagnostics of every source that could not be used.
//!
//! What the file system held is handed in as plain values: a missing file or
//! directory contributes nothing and is not reported; a source that exists
//! but cannot be read or parsed contributes nothing and is reported with its
//! path. A directory's entries are taken in the order given; an entry that
//! fails is reported and the scan goes on.

use vstd::prelude::*;
use vstd::string::*;
use crate::document::{parse_config, spec_parse_config};
use crate::paths::{SearchPaths, has_config_extension, join_path, spec_has_config_extension, spec_join};
use crate::store::{
    BindingView, Configuration, GestureView, StoreView, apply_bindings, lemma_apply_concat, lemma_later_source_wins,
    last_rule, lookup_in, lemma_disjoint_sources_commute,
};

verus! {

/// What reading a file gave.
pub enum FileState {
    Missing,
    Unreadable(String),
    Read(Vec<u8>),
}

/// What inspecting a directory entry gave.
pub enum EntryKind {
    Directory,
    Uninspectable(String),
    File(FileState),
}

pub struct DirEntry {
    pub path: String,
    pub kind: EntryKind,
}

/// What listing a directory gave.
pub enum DirState {
    Missing,
    Unreadable(String),
    Listed(Vec<DirEntry>),
}

/// What the file system held at each of the four search paths. User
/// sources are ignored when the user paths could not be formed.
pub struct Sources {
    pub system_file: FileState,
    pub system_dir: DirState,
    pub user_file: FileState,
    pub user_dir: DirState,
}

/// A problem met during resolution. None of them stops it.
pub enum Diagnostic {
    FileFailed { path: String, cause: String },
    DirectoryFailed { path: String, cause: String },
    EntryFailed { path: String, cause: String },
    UserConfigUnavailable { cause: String },
    NothingFound { searched: Vec<String> },
}

/// A diagnostic: the path it names, then its cause.
pub enum Report {
    FileFailed(Seq<char>, Seq<char>),
    DirectoryFailed(Seq<char>, Seq<char>),
    EntryFailed(Seq<char>, Seq<char>),
    UserConfigUnavailable(Seq<char>),
    NothingFound(Seq<Seq<char>>),
}

pub open spec fn strings_view(ss: Seq<String>) -> Seq<Seq<char>> {
    ss.map_values(|s: String| s@)
}

impl View for Diagnostic {
    type V = Report;

    open spec fn view(&self) -> Report {
        match self {
            Diagnostic::FileFailed { path, cause } => Report::FileFailed(path@, cause@),
            Diagnostic::DirectoryFailed { path, cause } => Report::DirectoryFailed(path@, cause@),
            Diagnostic::EntryFailed { path, cause } => Report::EntryFailed(path@, cause@),
            Diagnostic::UserConfigUnavailable { cause } => Report::UserConfigUnavailable(cause@),
            Diagnostic::NothingFound { searched } => Report::NothingFound(strings_view(searched@)),
        }
    }
}

pub open spec fn reports(ds: Seq<Diagnostic>) -> Seq<Report> {
    ds.map_values(|d: Diagnostic| d@)
}

pub open spec fn file_bindings(st: FileState) -> Seq<BindingView> {
    match st {
        FileState::Read(b) => match spec_parse_config(b@) {
            Ok(bs) => bs,
            Err(_) => Seq::empty(),
        },
        _ => Seq::empty(),
    }
}

pub open spec fn file_reports(path: Seq<char>, st: FileState) -> Seq<Report> {
    match st {
        FileState::Missing => Seq::empty(),
        FileState::Unreadable(cause) => seq![Report::FileFailed(path, cause@)],
        FileState::Read(b) => match spec_parse_config(b@) {
            Ok(_) => Seq::empty(),
            Err(cause) => seq![Report::FileFailed(path, cause)],
        },
    }
}

pub open spec fn entry_bindings(e: DirEntry) -> Seq<BindingView> {
    match e.kind {
        EntryKind::File(st) => if spec_has_config_extension(e.path@) {
            file_bindings(st)
        } else {
            Seq::empty()
        },
        _ => Seq::empty(),
    }
}

pub open spec fn entry_reports(e: DirEntry) -> Seq<Report> {
    match e.kind {
        EntryKind::Directory => Seq::empty(),
        EntryKind::Uninspectable(cause) => seq![Report::EntryFailed(e.path@, cause@)],
        EntryKind::File(st) => if spec_has_config_extension(e.path@) {
            file_reports(e.path@, st)
        } else {
            Seq::empty()
        },
    }
}

pub open spec fn entries_bindings(es: Seq<DirEntry>) -> Seq<BindingView>
    decreases es.len(),
{
    if es.len() == 0 {
        Seq::empty()
    } else {
        entries_bindings(es.drop_last()) + entry_bindings(es.last())
    }
}

pub open spec fn entries_reports(es: Seq<DirEntry>) -> Seq<Report>
    decreases es.len(),
{
    if es.len() == 0 {
        Seq::empty()
    } else {
        entries_reports(es.drop_last()) + entry_reports(es.last())
    }
}

pub open spec fn dir_bindings(st: DirState) -> Seq<BindingView> {
    match st {
        DirState::Listed(es) => entries_bindings(es@),
        _ => Seq::empty(),
    }
}

pub open spec fn dir_reports(path: Seq<char>, st: DirState) -> Seq<Report> {
    match st {
        DirState::Missing => Seq::empty(),
        DirState::Unreadable(cause) => seq![Report::DirectoryFailed(path, cause@)],
        DirState::Listed(es) => entries_reports(es@),
    }
}

/// Applies one configuration file. A file that is missing changes nothing;
/// one that cannot be read or parsed changes nothing and is reported.
pub fn load_file(config: &mut Configuration, diags: &mut Vec<Diagnostic>, path: &String, st: &FileState)
    ensures
        final(config)@ == apply_bindings(old(config)@, file_bindings(*st)),
        reports(final(diags)@) == reports(old(diags)@) + file_reports(path@, *st),
{
    let ghost d0 = diags@;
    match st {
        FileState::Missing => {
            assert(reports(diags@) =~= reports(d0) + file_reports(path@, *st));
        },
        FileState::Unreadable(cause) => {
            diags.push(Diagnostic::FileFailed { path: path.clone(), cause: cause.clone() });
            assert(reports(diags@) =~= reports(d0) + file_reports(path@, *st));
        },
        FileState::Read(bytes) => match parse_config(bytes.as_slice()) {
            Ok(bs) => {
                config.add_bindings(bs);
                assert(reports(diags@) =~= reports(d0) + file_reports(path@, *st));
            },
            Err(cause) => {
                diags.push(Diagnostic::FileFailed { path: path.clone(), cause });
                assert(reports(diags@) =~= reports(d0) + file_reports(path@, *st));
            },
        },
    }
}

fn load_entry(config: &mut Configuration, diags: &mut Vec<Diagnostic>, e: &DirEntry)
    ensures
        final(config)@ == apply_bindings(old(config)@, entry_bindings(*e)),
        reports(final(diags)@) == reports(old(diags)@) + entry_reports(*e),
{
    let ghost d0 = diags@;
    match &e.kind {
        EntryKind::Directory => {
            assert(reports(diags@) =~= reports(d0) + entry_reports(*e));
        },
        EntryKind::Uninspectable(cause) => {
            diags.push(Diagnostic::EntryFailed { path: e.path.clone(), cause: cause.clone() });
            assert(reports(diags@) =~= reports(d0) + entry_reports(*e));
        },
        EntryKind::File(st) => {
            if has_config_extension(&e.path) {
                load_file(config, diags, &e.path, st);
            } else {
                assert(reports(diags@) =~= reports(d0) + entry_reports(*e));
            }
        },
    }
}

/// Applies a configuration directory: every entry that is a file with the
/// extension `toml`, in the order given. Subdirectories and other files are
/// skipped; an entry that fails is reported and the others still apply.
pub fn load_dir(config: &mut Configuration, diags: &mut Vec<Diagnostic>, path: &String, st: &DirState)
    ensures
        final(config)@ == apply_bindings(old(config)@, dir_bindings(*st)),
        reports(final(diags)@) == reports(old(diags)@) + dir_reports(path@, *st),
{
    let ghost c0 = config@;
    let ghost d0 = diags@;
    match st {
        DirState::Missing => {
            assert(reports(diags@) =~= reports(d0) + dir_reports(path@, *st));
        },
        DirState::Unreadable(cause) => {
            diags.push(Diagnostic::DirectoryFailed { path: path.clone(), cause: cause.clone() });
            assert(reports(diags@) =~= reports(d0) + dir_reports(path@, *st));
        },
        DirState::Listed(es) => {
            let mut i: usize = 0;
            assert(es@.take(0) =~= Seq::empty());
            assert(reports(diags@) =~= reports(d0) + entries_reports(es@.take(0)));
            while i < es.len()
                invariant
                    0 <= i <= es.len(),
                    config@ == apply_bindings(c0, entries_bindings(es@.take(i as int))),
                    reports(diags@) == reports(d0) + entries_reports(es@.take(i as int)),
                decreases es.len() - i,
            {
                assert(es@.take(i + 1).drop_last() =~= es@.take(i as int));
                assert(es@.take(i + 1).last() == es@[i as int]);
                load_entry(config, diags, &es[i]);
                proof {
                    lemma_apply_concat(c0, entries_bindings(es@.take(i as int)), entry_bindings(es@[i as int]));
                }
                assert(reports(diags@) =~= reports(d0) + entries_reports(es@.take(i + 1)));
                i += 1;
            }
            assert(es@.take(es.len() as int) =~= es@);
        },
    }
}


/// The paths listed when nothing was configured: the two files and the
/// files that the two directories are searched for.
pub open spec fn spec_searched(paths: SearchPaths) -> Seq<Seq<char>> {
    match paths.user {
        Ok(u) => seq![
            paths.system_file@,
            spec_join(paths.system_dir@, "*.toml"@),
            u.0@,
            spec_join(u.1@, "*.toml"@),
        ],
        Err(_) => seq![
            paths.system_file@,
            spec_join(paths.system_dir@, "*.toml"@),
            "$XDG_CONFIG_HOME/syngestures.toml"@,
            "$XDG_CONFIG_HOME/syngestures.d/*.toml"@,
        ],
    }
}

/// Every binding the sources give, lowest precedence first.
pub open spec fn resolution_bindings(paths: SearchPaths, src: Sources) -> Seq<BindingView> {
    file_bindings(src.system_file) + dir_bindings(src.system_dir) + if paths.user is Ok {
        file_bindings(src.user_file) + dir_bindings(src.user_dir)
    } else {
        Seq::<BindingView>::empty()
    }
}

/// Every report of a resolution, in the order the sources were tried, then
/// the summary when no device was configured.
pub open spec fn resolution_reports(paths: SearchPaths, src: Sources) -> Seq<Report> {
    let tried = file_reports(paths.system_file@, src.system_file) + dir_reports(
        paths.system_dir@,
        src.system_dir,
    ) + match paths.user {
        Ok(u) => file_reports(u.0@, src.user_file) + dir_reports(u.1@, src.user_dir),
        Err(cause) => seq![Report::UserConfigUnavailable(cause@)],
    };
    let store: StoreView = apply_bindings(Map::empty(), resolution_bindings(paths, src));
    if store.dom() == Set::<Seq<char>>::empty() {
        tried.push(Report::NothingFound(spec_searched(paths)))
    } else {
        tried
    }
}

/// The paths to list when nothing was configured.
pub fn searched(paths: &SearchPaths) -> (r: Vec<String>)
    ensures
        strings_view(r@) == spec_searched(*paths),
{
    let mut r: Vec<String> = Vec::new();
    r.push(paths.system_file.clone());
    r.push(join_path(&paths.system_dir, "*.toml"));
    match &paths.user {
        Ok(u) => {
            r.push(u.0.clone());
            r.push(join_path(&u.1, "*.toml"));
        },
        Err(_) => {
            r.push(String::from_str("$XDG_CONFIG_HOME/syngestures.toml"));
            r.push(String::from_str("$XDG_CONFIG_HOME/syngestures.d/*.toml"));
        },
    }
    assert(strings_view(r@) =~= spec_searched(*paths));
    r
}

/// Resolves the configuration: the system file, the system directory, the
/// user file and the user directory, each overriding the ones before it.
/// Returns the store and every diagnostic, in the order they arose.
pub fn resolve(paths: &SearchPaths, src: &Sources) -> (r: (Configuration, Vec<Diagnostic>))
    ensures
        r.0@ == apply_bindings(Map::empty(), resolution_bindings(*paths, *src)),
        reports(r.1@) == resolution_reports(*paths, *src),
{
    let mut config = Configuration::new();
    let mut diags: Vec<Diagnostic> = Vec::new();
    assert(reports(diags@) =~= Seq::empty());
    load_file(&mut config, &mut diags, &paths.system_file, &src.system_file);
    load_dir(&mut config, &mut diags, &paths.system_dir, &src.system_dir);
    let ghost sys = file_bindings(src.system_file) + dir_bindings(src.system_dir);
    proof {
        lemma_apply_concat(Map::empty(), file_bindings(src.system_file), dir_bindings(src.system_dir));
    }
    match &paths.user {
        Ok(u) => {
            let ghost c1 = config@;
            let ghost d1 = reports(diags@);
            load_file(&mut config, &mut diags, &u.0, &src.user_file);
            load_dir(&mut config, &mut diags, &u.1, &src.user_dir);
            proof {
                lemma_apply_concat(c1, file_bindings(src.user_file), dir_bindings(src.user_dir));
                lemma_apply_concat(Map::empty(), sys, file_bindings(src.user_file) + dir_bindings(src.user_dir));
            }
            assert(reports(diags@) =~= d1 + (file_reports(u.0@, src.user_file) + dir_reports(u.1@, src.user_dir)));
        },
        Err(cause) => {
            let ghost d1 = reports(diags@);
            diags.push(Diagnostic::UserConfigUnavailable { cause: cause.clone() });
            assert(reports(diags@) =~= d1.push(Report::UserConfigUnavailable(cause@)));
            assert(sys + Seq::<BindingView>::empty() =~= sys);
        },
    }
    assert(config@ == apply_bindings(Map::empty(), resolution_bindings(*paths, *src)));
    if config.is_empty() {
        let ghost d2 = reports(diags@);
        diags.push(Diagnostic::NothingFound { searched: searched(paths) });
        assert(reports(diags@) =~= d2.push(Report::NothingFound(spec_searched(*paths))));
    }
    (config, diags)
}


/// A key that the user sources bind takes its action from them, whatever
/// the system sources bind and in whatever order their files came.
pub proof fn lemma_user_sources_win(paths: SearchPaths, src: Sources, d: Seq<char>, g: GestureView)
    requires
        paths.user is Ok,
        last_rule(file_bindings(src.user_file) + dir_bindings(src.user_dir), d, g) is Some,
    ensures
        lookup_in(apply_bindings(Map::empty(), resolution_bindings(paths, src)), d, g) == last_rule(
            file_bindings(src.user_file) + dir_bindings(src.user_dir),
            d,
            g,
        ),
{
    let sys = file_bindings(src.system_file) + dir_bindings(src.system_dir);
    let user = file_bindings(src.user_file) + dir_bindings(src.user_dir);
    lemma_apply_concat(Map::empty(), sys, user);
    lemma_later_source_wins(Map::empty(), sys, user, d, g);
}

/// A missing file or directory acts as an empty source: it gives no
/// binding and no report.
pub proof fn lemma_missing_source_is_empty(path: Seq<char>)
    ensures
        file_bindings(FileState::Missing) == Seq::<BindingView>::empty(),
        file_reports(path, FileState::Missing) == Seq::<Report>::empty(),
        dir_bindings(DirState::Missing) == Seq::<BindingView>::empty(),
        dir_reports(path, DirState::Missing) == Seq::<Report>::empty(),
{
}



/// A directory entry that is a configuration file whose bytes were read.
pub open spec fn is_config_file(e: DirEntry) -> bool {
    spec_has_config_extension(e.path@) && e.kind matches EntryKind::File(FileState::Read(_))
}

/// Whether an entry's bytes follow the configuration schema.
pub open spec fn parses(e: DirEntry) -> bool {
    match e.kind {
        EntryKind::File(FileState::Read(b)) => spec_parse_config(b@) is Ok,
        _ => false,
    }
}

/// Why an entry's bytes do not follow the configuration schema.
pub open spec fn parse_error(e: DirEntry) -> Seq<char> {
    match e.kind {
        EntryKind::File(FileState::Read(b)) => match spec_parse_config(b@) {
            Err(cause) => cause,
            Ok(_) => Seq::empty(),
        },
        _ => Seq::empty(),
    }
}

pub proof fn lemma_entries_single(x: DirEntry)
    ensures
        entries_bindings(seq![x]) == entry_bindings(x),
        entries_reports(seq![x]) == entry_reports(x),
{
    assert(seq![x].drop_last() =~= Seq::<DirEntry>::empty());
    assert(seq![x].last() == x);
    assert(entries_bindings(Seq::<DirEntry>::empty()) == Seq::<BindingView>::empty());
    assert(entries_reports(Seq::<DirEntry>::empty()) == Seq::<Report>::empty());
    assert(Seq::<BindingView>::empty() + entry_bindings(x) =~= entry_bindings(x));
    assert(Seq::<Report>::empty() + entry_reports(x) =~= entry_reports(x));
}

pub proof fn lemma_entries_concat(a: Seq<DirEntry>, b: Seq<DirEntry>)
    ensures
        entries_bindings(a + b) == entries_bindings(a) + entries_bindings(b),
        entries_reports(a + b) == entries_reports(a) + entries_reports(b),
    decreases b.len(),
{
    if b.len() == 0 {
        assert(a + b =~= a);
        assert(entries_bindings(a) + entries_bindings(b) =~= entries_bindings(a));
        assert(entries_reports(a) + entries_reports(b) =~= entries_reports(a));
    } else {
        lemma_entries_concat(a, b.drop_last());
        assert((a + b).drop_last() =~= a + b.drop_last());
        assert((a + b).last() == b.last());
        assert(entries_bindings(a + b) =~= entries_bindings(a) + entries_bindings(b));
        assert(entries_reports(a + b) =~= entries_reports(a) + entries_reports(b));
    }
}

pub proof fn lemma_well_formed_entries_report_nothing(es: Seq<DirEntry>)
    requires
        forall|j: int| 0 <= j < es.len() ==> is_config_file(#[trigger] es[j]) && parses(es[j]),
    ensures
        entries_reports(es) == Seq::<Report>::empty(),
    decreases es.len(),
{
    if es.len() > 0 {
        let init = es.drop_last();
        assert forall|j: int| 0 <= j < init.len() implies is_config_file(#[trigger] init[j]) && parses(init[j]) by {
            assert(init[j] == es[j]);
        }
        lemma_well_formed_entries_report_nothing(init);
        assert(is_config_file(es[es.len() - 1]) && parses(es[es.len() - 1]));
        assert(entries_reports(es) =~= Seq::<Report>::empty());
    }
}

/// A malformed configuration file in a directory gives no binding, wherever
/// it stands among the entries, and its own report stands where it does.
pub proof fn lemma_malformed_entry_contributes_nothing(es: Seq<DirEntry>, i: int)
    requires
        0 <= i < es.len(),
        is_config_file(es[i]),
        !parses(es[i]),
    ensures
        entries_bindings(es) == entries_bindings(es.remove(i)),
        entries_reports(es) == entries_reports(es.take(i)) + entry_reports(es[i]) + entries_reports(es.skip(i + 1)),
{
    let pre = es.take(i);
    let post = es.skip(i + 1);
    assert(es =~= pre + seq![es[i]] + post);
    assert(es.remove(i) =~= pre + post);
    lemma_entries_concat(pre + seq![es[i]], post);
    lemma_entries_concat(pre, seq![es[i]]);
    lemma_entries_concat(pre, post);
    lemma_entries_single(es[i]);
    assert(entry_bindings(es[i]) =~= Seq::<BindingView>::empty());
    assert(entries_bindings(pre) + Seq::<BindingView>::empty() =~= entries_bindings(pre));
}

/// A directory holding two well-formed configuration files that bind no key
/// in common and one malformed file gives, in every order of the three, the
/// store of the two well-formed files, and a single report: the malformed
/// file with its cause.
pub proof fn lemma_malformed_dir_any_order(m: StoreView, es: Seq<DirEntry>, i: int, w1: DirEntry, w2: DirEntry)
    requires
        es.len() == 3,
        0 <= i < 3,
        is_config_file(es[i]),
        !parses(es[i]),
        es.remove(i) == seq![w1, w2] || es.remove(i) == seq![w2, w1],
        is_config_file(w1) && parses(w1),
        is_config_file(w2) && parses(w2),
        forall|d: Seq<char>, g: GestureView|
            !(#[trigger] last_rule(entry_bindings(w1), d, g) is Some && last_rule(entry_bindings(w2), d, g) is Some),
    ensures
        apply_bindings(m, entries_bindings(es)) == apply_bindings(apply_bindings(m, entry_bindings(w1)), entry_bindings(w2)),
        entries_reports(es) == seq![Report::FileFailed(es[i].path@, parse_error(es[i]))],
{
    lemma_malformed_entry_contributes_nothing(es, i);
    let rest = es.remove(i);
    let pre = es.take(i);
    let post = es.skip(i + 1);
    assert(rest =~= pre + post);
    lemma_entries_concat(pre, post);
    assert forall|j: int| 0 <= j < rest.len() implies is_config_file(#[trigger] rest[j]) && parses(rest[j]) by {
        assert(rest[j] == w1 || rest[j] == w2);
    }
    lemma_well_formed_entries_report_nothing(rest);
    assert(entries_reports(pre).len() == 0 && entries_reports(post).len() == 0);
    assert(entries_reports(pre) =~= Seq::<Report>::empty());
    assert(entries_reports(post) =~= Seq::<Report>::empty());
    assert(entries_reports(es) =~= entry_reports(es[i]));
    assert(entry_reports(es[i]) =~= seq![Report::FileFailed(es[i].path@, parse_error(es[i]))]);
    lemma_entries_concat(seq![w1], seq![w2]);
    lemma_entries_concat(seq![w2], seq![w1]);
    lemma_entries_single(w1);
    lemma_entries_single(w2);
    assert(seq![w1] + seq![w2] =~= seq![w1, w2]);
    assert(seq![w2] + seq![w1] =~= seq![w2, w1]);
    lemma_apply_concat(m, entry_bindings(w1), entry_bindings(w2));
    lemma_apply_concat(m, entry_bindings(w2), entry_bindings(w1));
    lemma_disjoint_sources_commute(m, entry_bindings(w1), entry_bindings(w2));
}

} // verus!
