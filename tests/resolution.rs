use syngestures::document::{parse_config, read_config, TomlValue};
use syngestures::paths::{config_home, has_config_extension, join_path, search_paths, ConfigHomeVar, SearchPaths};
use syngestures::resolve::{
    load_dir, load_file, resolve, searched, DirEntry, DirState, Diagnostic, EntryKind, FileState, Sources,
};
use syngestures::store::{Action, Binding, Configuration, Gesture, Scalar};

fn s(x: &str) -> String {
    x.to_string()
}

fn swipe(direction: &str, fingers: i64) -> Gesture {
    Gesture {
        fields: vec![
            (s("direction"), Scalar::Text(s(direction))),
            (s("fingers"), Scalar::Integer(fingers)),
            (s("type"), Scalar::Text(s("swipe"))),
        ],
    }
}

fn file(text: &str) -> FileState {
    FileState::Read(text.as_bytes().to_vec())
}

fn binding_file(device: &str, direction: &str, command: &str) -> FileState {
    file(&format!(
        "[[devices]]\ndevice = \"{}\"\ngestures = [ {{ type = \"swipe\", direction = \"{}\", fingers = 3, execute = \"{}\" }} ]\n",
        device, direction, command
    ))
}

fn command_of(config: &Configuration, device: &str, gesture: &Gesture) -> Option<String> {
    match config.lookup(&s(device), gesture) {
        Some(Action::Execute(c)) => Some(c.clone()),
        Some(Action::NoOp) => Some(s("")),
        None => None,
    }
}

fn paths() -> SearchPaths {
    search_paths(&s("/usr/local"), &ConfigHomeVar::Value(s("/home/u/.config")), &None)
}

fn no_sources() -> Sources {
    Sources {
        system_file: FileState::Missing,
        system_dir: DirState::Missing,
        user_file: FileState::Missing,
        user_dir: DirState::Missing,
    }
}

fn entry(path: &str, state: FileState) -> DirEntry {
    DirEntry { path: s(path), kind: EntryKind::File(state) }
}

#[test]
fn user_file_overrides_system_file() {
    let mut src = no_sources();
    src.system_file = binding_file("touchpad0", "left", "workspace-prev");
    src.user_file = binding_file("touchpad0", "left", "workspace-next");
    let (config, diags) = resolve(&paths(), &src);
    assert_eq!(command_of(&config, "touchpad0", &swipe("left", 3)), Some(s("workspace-next")));
    assert!(diags.is_empty());
}

#[test]
fn nothing_found_lists_four_paths() {
    let (config, diags) = resolve(&paths(), &no_sources());
    assert!(config.is_empty());
    assert_eq!(diags.len(), 1);
    match &diags[0] {
        Diagnostic::NothingFound { searched } => {
            assert_eq!(
                searched,
                &vec![
                    s("/usr/local/etc/syngestures.toml"),
                    s("/usr/local/etc/syngestures.d/*.toml"),
                    s("/home/u/.config/syngestures.toml"),
                    s("/home/u/.config/syngestures.d/*.toml"),
                ]
            );
        }
        _ => panic!("expected the summary of searched paths"),
    }
}

#[test]
fn nothing_found_without_user_paths() {
    let p = search_paths(&s("/usr"), &ConfigHomeVar::NotUnicode, &None);
    let (config, diags) = resolve(&p, &no_sources());
    assert!(config.is_empty());
    assert_eq!(diags.len(), 2);
    assert!(matches!(diags[0], Diagnostic::UserConfigUnavailable { .. }));
    assert_eq!(
        searched(&p),
        vec![
            s("/usr/etc/syngestures.toml"),
            s("/usr/etc/syngestures.d/*.toml"),
            s("$XDG_CONFIG_HOME/syngestures.toml"),
            s("$XDG_CONFIG_HOME/syngestures.d/*.toml"),
        ]
    );
}

#[test]
fn malformed_file_in_directory_is_isolated() {
    let mut config = Configuration::new();
    let mut diags = Vec::new();
    let dir = DirState::Listed(vec![
        entry("/etc/syngestures.d/a.toml", binding_file("touchpad0", "left", "prev")),
        entry("/etc/syngestures.d/bad.toml", file("[[devices]\nnot toml")),
        entry("/etc/syngestures.d/b.toml", binding_file("touchpad1", "right", "next")),
    ]);
    load_dir(&mut config, &mut diags, &s("/etc/syngestures.d"), &dir);
    assert_eq!(command_of(&config, "touchpad0", &swipe("left", 3)), Some(s("prev")));
    assert_eq!(command_of(&config, "touchpad1", &swipe("right", 3)), Some(s("next")));
    assert_eq!(command_of(&config, "touchpad0", &swipe("right", 3)), None);
    assert_eq!(diags.len(), 1);
    match &diags[0] {
        Diagnostic::FileFailed { path, .. } => assert_eq!(path, "/etc/syngestures.d/bad.toml"),
        _ => panic!("expected a file diagnostic"),
    }
}

#[test]
fn directory_skips_subdirectories_and_other_files() {
    let mut config = Configuration::new();
    let mut diags = Vec::new();
    let dir = DirState::Listed(vec![
        DirEntry { path: s("/d/sub.toml"), kind: EntryKind::Directory },
        entry("/d/notes.txt", binding_file("touchpad0", "left", "x")),
        entry("/d/.toml", binding_file("touchpad0", "left", "y")),
        DirEntry { path: s("/d/odd.toml"), kind: EntryKind::Uninspectable(s("permission denied")) },
    ]);
    load_dir(&mut config, &mut diags, &s("/d"), &dir);
    assert!(config.is_empty());
    assert_eq!(diags.len(), 1);
    assert!(matches!(&diags[0], Diagnostic::EntryFailed { path, .. } if path == "/d/odd.toml"));
}

#[test]
fn missing_sources_are_silent() {
    let mut config = Configuration::new();
    let mut diags = Vec::new();
    load_file(&mut config, &mut diags, &s("/nowhere.toml"), &FileState::Missing);
    load_dir(&mut config, &mut diags, &s("/nowhere.d"), &DirState::Missing);
    assert!(config.is_empty());
    assert!(diags.is_empty());
}

#[test]
fn unreadable_sources_are_reported() {
    let mut config = Configuration::new();
    let mut diags = Vec::new();
    load_file(&mut config, &mut diags, &s("/f.toml"), &FileState::Unreadable(s("denied")));
    load_dir(&mut config, &mut diags, &s("/d"), &DirState::Unreadable(s("denied")));
    assert!(config.is_empty());
    assert_eq!(diags.len(), 2);
    assert!(matches!(&diags[0], Diagnostic::FileFailed { path, cause } if path == "/f.toml" && cause == "denied"));
    assert!(matches!(&diags[1], Diagnostic::DirectoryFailed { path, .. } if path == "/d"));
}

#[test]
fn record_without_action_is_noop() {
    let bs = parse_config(b"[[devices]]\ndevice = \"pad\"\ngestures = [ { type = \"swipe\", direction = \"up\", fingers = 4 } ]\n")
        .unwrap();
    let mut config = Configuration::new();
    config.add_bindings(bs);
    assert!(matches!(config.lookup(&s("pad"), &swipe("up", 4)), Some(Action::NoOp)));
}

#[test]
fn disjoint_sources_commute() {
    let a = || binding_file("touchpad0", "left", "a");
    let b = || binding_file("touchpad0", "right", "b");
    let mut one = Configuration::new();
    let mut two = Configuration::new();
    let mut diags = Vec::new();
    load_file(&mut one, &mut diags, &s("a"), &a());
    load_file(&mut one, &mut diags, &s("b"), &b());
    load_file(&mut two, &mut diags, &s("b"), &b());
    load_file(&mut two, &mut diags, &s("a"), &a());
    for config in [&one, &two] {
        assert_eq!(command_of(config, "touchpad0", &swipe("left", 3)), Some(s("a")));
        assert_eq!(command_of(config, "touchpad0", &swipe("right", 3)), Some(s("b")));
    }
}

#[test]
fn user_directory_wins_over_any_system_order() {
    for flip in [false, true] {
        let mut sys = vec![
            entry("/s/1.toml", binding_file("pad", "down", "sys1")),
            entry("/s/2.toml", binding_file("pad", "down", "sys2")),
        ];
        if flip {
            sys.reverse();
        }
        let mut src = no_sources();
        src.system_dir = DirState::Listed(sys);
        src.user_dir = DirState::Listed(vec![entry("/u/1.toml", binding_file("pad", "down", "user"))]);
        let (config, _) = resolve(&paths(), &src);
        assert_eq!(command_of(&config, "pad", &swipe("down", 3)), Some(s("user")));
    }
}

#[test]
fn last_duplicate_in_a_file_wins() {
    let text = "[[devices]]\ndevice = \"pad\"\ngestures = [\n { type = \"swipe\", direction = \"up\", fingers = 3, execute = \"one\" },\n { type = \"swipe\", direction = \"up\", fingers = 3, execute = \"two\" },\n]\n";
    let mut config = Configuration::new();
    let mut diags = Vec::new();
    load_file(&mut config, &mut diags, &s("f"), &file(text));
    assert_eq!(command_of(&config, "pad", &swipe("up", 3)), Some(s("two")));
    assert_eq!(config.bindings.len(), 3);
}

#[test]
fn single_device_table_and_alias() {
    let text = "[device]\ndevice = \"pad\"\ngestures = []\n";
    let bs = parse_config(text.as_bytes()).unwrap();
    assert_eq!(bs.len(), 1);
    let mut config = Configuration::new();
    config.add_bindings(bs);
    assert!(!config.is_empty());
    assert!(config.has_device(&s("pad")));
    assert!(!config.has_device(&s("other")));
}

#[test]
fn schema_violations_are_rejected() {
    let bad = [
        "[[devices]]\ndevice = \"pad\"\ngestures = []\nextra = 1\n",
        "other = 1\n[[devices]]\ndevice = \"pad\"\ngestures = []\n",
        "[[devices]]\ndevice = \"pad\"\n",
        "[[devices]]\ndevice = 3\ngestures = []\n",
        "[[devices]]\ndevice = \"pad\"\ngestures = [ { execute = \"x\" } ]\n",
        "[[devices]]\ndevice = \"pad\"\ngestures = [ { type = \"swipe\", execute = 1 } ]\n",
        "[[devices]]\ndevice = \"pad\"\ngestures = [ { type = [1] } ]\n",
        "[[devices]]\ndevice = \"pad\"\ngestures = []\n[[device]]\ndevice = \"pad\"\ngestures = []\n",
        "devices = 1\n",
        "",
    ];
    for text in bad {
        assert!(parse_config(text.as_bytes()).is_err(), "accepted: {}", text);
    }
    assert!(parse_config(&[0xff, 0xfe]).is_err());
}

#[test]
fn read_config_on_a_tree() {
    let record = TomlValue::Table(vec![
        (s("direction"), TomlValue::Text(s("left"))),
        (s("execute"), TomlValue::Text(s("go"))),
        (s("fingers"), TomlValue::Integer(2)),
    ]);
    let block = TomlValue::Table(vec![
        (s("device"), TomlValue::Text(s("pad"))),
        (s("gestures"), TomlValue::Array(vec![record])),
    ]);
    let doc = TomlValue::Table(vec![(s("devices"), TomlValue::Array(vec![block]))]);
    let bs: Vec<Binding> = read_config(&doc).unwrap();
    assert_eq!(bs.len(), 2);
    assert_eq!(bs[1].device, "pad");
    match &bs[1].rule {
        Some((g, Action::Execute(c))) => {
            assert_eq!(c, "go");
            assert_eq!(g.fields.len(), 2);
        }
        _ => panic!("expected an execute rule"),
    }
    assert!(read_config(&TomlValue::Integer(1)).is_err());
}

#[test]
fn paths_from_the_environment() {
    assert_eq!(join_path(&s("/usr/local"), "etc/x"), "/usr/local/etc/x");
    assert_eq!(join_path(&s("/usr/local/"), "etc/x"), "/usr/local/etc/x");
    assert_eq!(join_path(&s(""), "etc/x"), "etc/x");
    assert_eq!(config_home(&ConfigHomeVar::Value(s("/x")), &Some(s("/h"))), Ok(s("/x")));
    assert_eq!(config_home(&ConfigHomeVar::Unset, &Some(s("/home/u"))), Ok(s("/home/u/.config")));
    assert!(config_home(&ConfigHomeVar::Unset, &Some(s(""))).is_err());
    assert!(config_home(&ConfigHomeVar::Unset, &None).is_err());
    assert!(config_home(&ConfigHomeVar::NotUnicode, &Some(s("/h"))).is_err());
    let p = search_paths(&s("/usr/local"), &ConfigHomeVar::Unset, &Some(s("/home/u")));
    assert_eq!(p.system_file, "/usr/local/etc/syngestures.toml");
    assert_eq!(p.system_dir, "/usr/local/etc/syngestures.d");
    assert_eq!(p.user, Ok((s("/home/u/.config/syngestures.toml"), s("/home/u/.config/syngestures.d"))));
}

#[test]
fn config_file_extension() {
    assert!(has_config_extension(&s("/d/a.toml")));
    assert!(has_config_extension(&s("x.toml")));
    assert!(!has_config_extension(&s("/d/.toml")));
    assert!(!has_config_extension(&s(".toml")));
    assert!(!has_config_extension(&s("/d/a.tomlx")));
    assert!(!has_config_extension(&s("/d/a.txt")));
}

#[test]
fn default_action_is_noop() {
    assert!(matches!(Action::default(), Action::NoOp));
}

#[test]
fn gesture_equality_compares_every_field() {
    assert!(swipe("left", 3).same_as(&swipe("left", 3)));
    assert!(!swipe("left", 3).same_as(&swipe("left", 4)));
    assert!(!swipe("left", 3).same_as(&swipe("right", 3)));
    let short = Gesture { fields: vec![(s("direction"), Scalar::Text(s("left")))] };
    assert!(!short.same_as(&swipe("left", 3)));
    assert!(Scalar::Boolean(true).same_as(&Scalar::Boolean(true)));
    assert!(!Scalar::Integer(1).same_as(&Scalar::Text(s("1"))));
}

#[test]
fn config_home_error_texts() {
    assert_eq!(config_home(&ConfigHomeVar::Unset, &None), Err(s("Could not determine user home directory!")));
    assert_eq!(config_home(&ConfigHomeVar::Unset, &Some(s(""))), Err(s("Could not determine user home directory!")));
    assert_eq!(config_home(&ConfigHomeVar::NotUnicode, &None), Err(s("Invalid XDG_CONFIG_HOME")));
    let p = search_paths(&s("/usr"), &ConfigHomeVar::Unset, &None);
    let (_, diags) = resolve(&p, &no_sources());
    assert!(matches!(&diags[0], Diagnostic::UserConfigUnavailable { cause } if cause == "Could not determine user home directory!"));
}

#[test]
fn failure_causes_are_kept() {
    let mut config = Configuration::new();
    let mut diags = Vec::new();
    load_file(&mut config, &mut diags, &s("/a.toml"), &file("devices = 1\n"));
    load_file(&mut config, &mut diags, &s("/b.toml"), &file("[[devices]\n"));
    load_dir(&mut config, &mut diags, &s("/d"), &DirState::Unreadable(s("busy")));
    assert_eq!(diags.len(), 3);
    match &diags[0] {
        Diagnostic::FileFailed { path, cause } => {
            assert_eq!(path, "/a.toml");
            assert_eq!(cause, "a device block or gesture record does not follow the schema");
        }
        _ => panic!("expected a file diagnostic"),
    }
    match &diags[1] {
        Diagnostic::FileFailed { path, cause } => {
            assert_eq!(path, "/b.toml");
            assert!(!cause.is_empty());
        }
        _ => panic!("expected a file diagnostic"),
    }
    assert!(matches!(&diags[2], Diagnostic::DirectoryFailed { path, cause } if path == "/d" && cause == "busy"));
}

#[test]
fn malformed_file_in_any_position() {
    let orders = [[0, 1, 2], [0, 2, 1], [1, 0, 2], [1, 2, 0], [2, 0, 1], [2, 1, 0]];
    for order in orders {
        let make = |k: usize| match k {
            0 => entry("/d/w1.toml", binding_file("touchpad0", "left", "prev")),
            1 => entry("/d/m.toml", file("devices = [ { device = \"touchpad0\", gestures = 7 } ]\n")),
            _ => entry("/d/w2.toml", binding_file("touchpad1", "right", "next")),
        };
        let mut config = Configuration::new();
        let mut diags = Vec::new();
        let dir = DirState::Listed(order.iter().map(|k| make(*k)).collect());
        load_dir(&mut config, &mut diags, &s("/d"), &dir);
        assert_eq!(command_of(&config, "touchpad0", &swipe("left", 3)), Some(s("prev")));
        assert_eq!(command_of(&config, "touchpad1", &swipe("right", 3)), Some(s("next")));
        assert_eq!(diags.len(), 1);
        assert!(matches!(&diags[0], Diagnostic::FileFailed { path, cause } if path == "/d/m.toml" && !cause.is_empty()));
    }
}

#[test]
fn worked_example_leaves_one_binding() {
    let mut src = no_sources();
    src.system_file = binding_file("touchpad0", "left", "workspace-prev");
    src.user_file = binding_file("touchpad0", "left", "workspace-next");
    let (config, _) = resolve(&paths(), &src);
    assert!(config.has_device(&s("touchpad0")));
    assert!(!config.has_device(&s("touchpad1")));
    assert_eq!(command_of(&config, "touchpad0", &swipe("left", 3)), Some(s("workspace-next")));
    assert_eq!(command_of(&config, "touchpad0", &swipe("right", 3)), None);
    assert_eq!(command_of(&config, "touchpad0", &swipe("left", 2)), None);
}
