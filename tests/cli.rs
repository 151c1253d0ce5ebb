use duanzhang::cli::{get_args, preset_from_name, presets_from_list, split_at_commas, ArgError, Commands};
use duanzhang::preset::Preset;

fn argv(s: &[&str]) -> Vec<String> {
    s.iter().map(|x| x.to_string()).collect()
}

#[test]
fn parses_info() {
    let a = get_args(&argv(&["info", "f.ttf"])).unwrap();
    match a.command {
        Commands::Info { file } => assert_eq!(file, "f.ttf"),
        _ => panic!("expected info"),
    }
}

#[test]
fn parses_subset_with_options() {
    let a = get_args(&argv(&[
        "subset", "f.ttf", "-o", "out.ttf", "--charset", "a.txt,b.txt", "--presets", "ascii,kana", "-c", "c.txt",
    ]))
    .unwrap();
    match a.command {
        Commands::Subset { file, output, charset, presets } => {
            assert_eq!(file, "f.ttf");
            assert_eq!(output, Some("out.ttf".to_string()));
            assert_eq!(charset, argv(&["a.txt", "b.txt", "c.txt"]));
            assert_eq!(presets, vec![Preset::Ascii, Preset::Kana]);
        }
        _ => panic!("expected subset"),
    }
}

#[test]
fn subset_without_options() {
    let a = get_args(&argv(&["subset", "f.ttf"])).unwrap();
    match a.command {
        Commands::Subset { output, charset, presets, .. } => {
            assert_eq!(output, None);
            assert!(charset.is_empty());
            assert!(presets.is_empty());
        }
        _ => panic!("expected subset"),
    }
}

#[test]
fn argument_errors() {
    assert!(matches!(get_args(&argv(&[])), Err(ArgError::MissingCommand)));
    assert!(matches!(get_args(&argv(&["merge", "f"])), Err(ArgError::UnknownCommand)));
    assert!(matches!(get_args(&argv(&["info"])), Err(ArgError::MissingFile)));
    assert!(matches!(get_args(&argv(&["info", "a", "b"])), Err(ArgError::UnexpectedArgument)));
    assert!(matches!(get_args(&argv(&["subset"])), Err(ArgError::MissingFile)));
    assert!(matches!(get_args(&argv(&["subset", "f", "--output"])), Err(ArgError::MissingValue)));
    assert!(matches!(get_args(&argv(&["subset", "f", "--presets", "ascii,greek"])), Err(ArgError::UnknownPreset)));
    assert!(matches!(get_args(&argv(&["subset", "f", "-x", "1"])), Err(ArgError::UnexpectedArgument)));
}

#[test]
fn preset_names() {
    assert_eq!(preset_from_name("cjk-unified-ideographs"), Some(Preset::CJKUnifiedIdeographs));
    assert_eq!(preset_from_name("recommended"), Some(Preset::Recommended));
    assert_eq!(preset_from_name("Ascii"), None);
    assert_eq!(
        presets_from_list("symbols,hangul,punctuation,bopomofo"),
        Some(vec![Preset::Symbols, Preset::Hangul, Preset::Punctuation, Preset::Bopomofo])
    );
    assert_eq!(presets_from_list("ascii,"), None);
}

#[test]
fn comma_splitting() {
    assert_eq!(split_at_commas("a,b,,c"), argv(&["a", "b", "", "c"]));
    assert_eq!(split_at_commas(""), argv(&[""]));
    assert_eq!(split_at_commas("\u{4E2D}.txt"), argv(&["\u{4E2D}.txt"]));
}

#[test]
fn option_in_place_of_file_is_refused() {
    assert!(matches!(get_args(&argv(&["info", "--help"])), Err(ArgError::MissingFile)));
    assert!(matches!(get_args(&argv(&["subset", "-h"])), Err(ArgError::MissingFile)));
    assert!(matches!(get_args(&argv(&["--help"])), Err(ArgError::UnknownCommand)));
}

#[test]
fn repeated_output_is_refused() {
    assert!(matches!(
        get_args(&argv(&["subset", "f.ttf", "-o", "a.ttf", "--output", "b.ttf"])),
        Err(ArgError::RepeatedOutput)
    ));
}
