use taskfile::command::{enhanced_path, has_script, local_bin_path, resolve_command, PackageManager};
use taskfile::text::{split_marked, split_words};
use taskfile::duration::format_duration;

fn words(ws: &[&str]) -> Vec<String> {
    ws.iter().map(|w| w.to_string()).collect()
}

#[test]
fn script_runs_through_package_manager() {
    let r = resolve_command(&words(&["build", "--watch"]), true, PackageManager::Pnpm, true);
    assert_eq!(r.executable, "pnpm");
    assert_eq!(r.args, words(&["run", "build", "--watch"]));
}

#[test]
fn local_binary_runs_by_path() {
    let r = resolve_command(&words(&["tsc", "-p", "."]), false, PackageManager::Npm, true);
    assert_eq!(r.executable, "node_modules/.bin/tsc");
    assert_eq!(r.args, words(&["-p", "."]));
}

#[test]
fn system_command_is_first_word() {
    let r = resolve_command(&words(&["echo", "hi"]), false, PackageManager::Yarn, false);
    assert_eq!(r.executable, "echo");
    assert_eq!(r.args, words(&["hi"]));
    let r = resolve_command(&words(&["ls"]), false, PackageManager::Yarn, false);
    assert_eq!(r.executable, "ls");
    assert!(r.args.is_empty());
}

#[test]
fn package_manager_detection_order() {
    assert_eq!(PackageManager::detect(true, true), PackageManager::Yarn);
    assert_eq!(PackageManager::detect(false, true), PackageManager::Pnpm);
    assert_eq!(PackageManager::detect(false, false), PackageManager::Npm);
    assert_eq!(PackageManager::Yarn.program(), "yarn");
    assert_eq!(PackageManager::Pnpm.program(), "pnpm");
    assert_eq!(PackageManager::Npm.program(), "npm");
}

#[test]
fn scripts_manifest_lookup() {
    let json = r#"{"name": "x", "scripts": {"build": "tsc", "n": 3}}"#;
    assert!(has_script(json, "build"));
    assert!(!has_script(json, "test"));
    assert!(has_script(json, "n"));
    assert!(!has_script("not json", "build"));
    assert!(!has_script(r#"{"scripts": ["build"]}"#, "build"));
}

#[test]
fn local_bin_path_joins() {
    assert_eq!(local_bin_path("eslint"), "node_modules/.bin/eslint");
}

#[test]
fn path_prepends_local_dir() {
    assert_eq!(enhanced_path(Some("/p/node_modules/.bin"), Some("/usr/bin")), Some("/p/node_modules/.bin:/usr/bin".to_string()));
    assert_eq!(enhanced_path(Some("/p/bin"), None), Some("/p/bin".to_string()));
    assert_eq!(enhanced_path(None, Some("/usr/bin")), None);
}

#[test]
fn durations() {
    assert_eq!(format_duration(0, 250), "250ms");
    assert_eq!(format_duration(0, 0), "0ms");
    assert_eq!(format_duration(5, 0), "5s");
    assert_eq!(format_duration(5, 340), "5.3s");
    assert_eq!(format_duration(5, 40), "5.0s");
    assert_eq!(format_duration(125, 0), "2m 5s");
    assert_eq!(format_duration(125, 7), "2m 5s 7ms");
    assert_eq!(format_duration(60, 0), "1m 0s");
}

#[test]
fn words_split_at_marked_characters() {
    let cs: Vec<char> = "a,b  c".chars().collect();
    assert_eq!(split_marked(&cs, &[false, true, false, false, false, false]), vec!["a", "b  c"]);
    assert_eq!(split_words(&cs), vec!["a,b", "c"]);
    let ws: Vec<char> = "\u{a0}x\u{2003}y\n".chars().collect();
    assert_eq!(split_words(&ws), vec!["x", "y"]);
    assert!(split_words(&[]).is_empty());
}

#[test]
fn script_presence_ignores_its_value() {
    assert!(has_script(r#"{"scripts": {"lint": null}}"#, "lint"));
    assert!(!has_script(r#"{"name": "x"}"#, "lint"));
    assert!(!has_script(r#"{"scripts": {"lint": "x"}} trailing"#, "lint"));
}

#[test]
fn white_space_characters() {
    for c in ['\t', '\n', '\u{b}', '\u{c}', '\r', ' ', '\u{85}', '\u{a0}', '\u{1680}', '\u{2000}', '\u{200a}', '\u{2028}', '\u{2029}', '\u{202f}', '\u{205f}', '\u{3000}'] {
        assert!(taskfile::text::is_space(c), "{:?}", c);
        assert_eq!(taskfile::text::is_space(c), c.is_whitespace());
    }
    for c in ['a', '_', '\u{200b}', '\u{180e}', '\u{feff}', '\u{1f}'] {
        assert!(!taskfile::text::is_space(c), "{:?}", c);
    }
    for u in 0u32..0x3100 {
        if let Some(c) = char::from_u32(u) {
            assert_eq!(taskfile::text::is_space(c), c.is_whitespace(), "{:?}", c);
        }
    }
}
