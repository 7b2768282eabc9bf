use masq::cli::{Cli, Commands};
use masq::driver::{
    any_failed, apply_command, dispatch, generate_command, standard_registry, GenerateError,
    Outcome,
};
use masq::registry::{normalize_name, Registry};
use masq::targets::target::{
    apply_twice, Gtk3Target, MasqTarget, SwayTarget, TargetBackend, UnreachableTarget,
};
use masq::theme::Theme;
use masq::themefile::{generate_theme, ParseError};

fn sample_theme() -> Theme {
    Theme {
        accent: 0xff0000,
        accent_deep: 0x880000,
        foreground: 0xffffff,
        complement: 0x00ff00,
        dark: 0x000000,
        light_dark: 0x222222,
    }
}

fn names(list: &[&str]) -> Vec<String> {
    list.iter().map(|s| s.to_string()).collect()
}

#[test]
fn cli_commands_carry_their_fields() {
    let cli = Cli {
        commands: Commands::Apply {
            file: "theme.toml".to_string(),
            targets: names(&["sway", "gtk3"]),
        },
    };
    match cli.commands {
        Commands::Apply { file, targets } => {
            assert_eq!(file, "theme.toml");
            assert_eq!(targets, names(&["sway", "gtk3"]));
        }
        Commands::Generate { .. } => panic!("wrong variant"),
    }
}

#[test]
fn unknown_target_isolation() {
    let registry = standard_registry();
    let outcomes = dispatch(&registry, &sample_theme(), &names(&["sway", "bogus", "gtk3"]));
    assert_eq!(
        outcomes,
        vec![
            Outcome::Applied { target: "SwayTarget".to_string() },
            Outcome::Unknown { requested: "bogus".to_string() },
            Outcome::Applied { target: "Gtk3Target".to_string() },
        ]
    );
}

#[test]
fn failure_isolation() {
    let mut registry: Registry<TargetBackend> = Registry::new();
    registry.register("sway", TargetBackend::Unreachable(UnreachableTarget));
    registry.register("gtk3", TargetBackend::Gtk3(Gtk3Target));
    let outcomes = dispatch(&registry, &sample_theme(), &names(&["sway", "gtk3"]));
    assert_eq!(outcomes.len(), 2);
    assert!(matches!(
        &outcomes[0],
        Outcome::Failed { target, message }
            if target == "UnreachableTarget" && message == "target application is unreachable"
    ));
    assert_eq!(
        outcomes[1],
        Outcome::Applied { target: "Gtk3Target".to_string() }
    );
    assert!(any_failed(&outcomes));
}

#[test]
fn apply_is_idempotent() {
    let theme = sample_theme();
    let (first, second) = apply_twice(&SwayTarget, &theme);
    assert_eq!(first, Ok(()));
    assert_eq!(second, Ok(()));
    let (first, second) = apply_twice(&UnreachableTarget, &theme);
    assert_eq!(first, second);
    assert!(first.is_err());
    let direct_once = Gtk3Target.apply(&theme);
    let direct_again = Gtk3Target.apply(&theme);
    assert_eq!(direct_once, direct_again);
}

#[test]
fn name_normalization_resolves_case_variants_alike() {
    let registry = standard_registry();
    let outcomes = dispatch(&registry, &sample_theme(), &names(&["sway", "SWAY", "Sway"]));
    let expected = Outcome::Applied { target: "SwayTarget".to_string() };
    assert_eq!(outcomes, vec![expected.clone(), expected.clone(), expected]);
    assert_eq!(normalize_name("SWAY"), normalize_name("sway"));
    assert_eq!(normalize_name("Sway"), b"sway".to_vec());
}

#[test]
fn describe_renders_hex_like_the_log_line() {
    assert_eq!(
        sample_theme().describe(),
        "Theme { accent: 0xff0000 accent_deep: 0x880000 foreground: 0xffffff \
         complement: 0xff00 dark: 0x0 light_dark: 0x222222 }"
    );
}

#[test]
fn registry_lookup_misses_are_not_errors() {
    let registry = standard_registry();
    assert!(registry.lookup(normalize_name("bogus").as_slice()).is_none());
    assert!(registry.lookup(normalize_name("GTK3").as_slice()).is_some());
}

#[test]
fn backend_names_are_canonical() {
    assert_eq!(SwayTarget.get_name(), "SwayTarget");
    assert_eq!(Gtk3Target.get_name(), "Gtk3Target");
    assert_eq!(
        TargetBackend::Sway(SwayTarget).get_name(),
        "SwayTarget"
    );
}

#[test]
fn exit_status_law_on_outcome_sets() {
    let all_good = vec![
        Outcome::Applied { target: "SwayTarget".to_string() },
        Outcome::Applied { target: "Gtk3Target".to_string() },
    ];
    assert!(!any_failed(&all_good));
    assert!(!any_failed(&Vec::new()));
    let with_unknown = vec![
        Outcome::Applied { target: "SwayTarget".to_string() },
        Outcome::Unknown { requested: "bogus".to_string() },
    ];
    assert!(any_failed(&with_unknown));
    let with_failure = vec![Outcome::Failed {
        target: "UnreachableTarget".to_string(),
        message: "target application is unreachable".to_string(),
    }];
    assert!(any_failed(&with_failure));
}

#[test]
fn apply_command_runs_every_target() {
    let registry = standard_registry();
    let source = generate_theme(&sample_theme());
    let outcomes = apply_command(&registry, source.as_slice(), &names(&["gtk3", "nope"]))
        .expect("a generated theme file must parse");
    assert_eq!(
        outcomes,
        vec![
            Outcome::Applied { target: "Gtk3Target".to_string() },
            Outcome::Unknown { requested: "nope".to_string() },
        ]
    );
    assert!(any_failed(&outcomes));
}

#[test]
fn apply_command_rejects_bad_source_before_any_dispatch() {
    let registry = standard_registry();
    let source = b"[theme]\naccent = 1\n";
    let result = apply_command(&registry, source, &names(&["sway", "gtk3"]));
    assert_eq!(result, Err(ParseError::MissingField));
}

#[test]
fn generate_command_produces_the_canonical_file() {
    let colors = names(&[
        "0xff0000", "0x880000", "0xffffff", "0x00ff00", "0x000000", "0x222222",
    ]);
    let bytes = generate_command(&colors).expect("six valid colors");
    assert_eq!(bytes, generate_theme(&sample_theme()));
    let decimal_colors = names(&["16711680", "8912896", "16777215", "65280", "0", "2236962"]);
    assert_eq!(generate_command(&decimal_colors), Ok(bytes));
}

#[test]
fn generate_command_rejects_wrong_count_and_bad_colors() {
    assert_eq!(
        generate_command(&names(&["0x1", "0x2"])),
        Err(GenerateError::WrongColorCount)
    );
    assert_eq!(
        generate_command(&names(&["0x1", "0x2", "0x3", "0x4", "0x5", "0x6", "0x7"])),
        Err(GenerateError::WrongColorCount)
    );
    assert_eq!(
        generate_command(&names(&["0x1", "0x2", "red", "0x4", "0x5", "0x6"])),
        Err(GenerateError::InvalidColor)
    );
    assert_eq!(
        generate_command(&names(&["4294967296", "0x2", "0x3", "0x4", "0x5", "0x6"])),
        Err(GenerateError::InvalidColor)
    );
}
