use comboman::history::{history_file, recent_commands, shell_kind, ShellKind};
use comboman::menu::{MenuKey, MenuStep, SaveMenu};
use comboman::picker::{filter_combos, ComboPicker, PickerKey, PickerStep};
use comboman::prompt::{PromptKey, PromptStep, TextPrompt};
use comboman::stack::{StackBuilder, StackKey, StackStep};
use comboman::store::{
    add_combo, add_combo_now, delete_combo, find_combo, listing, sort_by_recency, update_last_used,
};
use comboman::text::{function_name_for, join_lines, sanitize_name, shell_function, split_lines};
use comboman::types::{Combo, SaveOption};

fn s(x: &str) -> String {
    x.to_string()
}

fn strings(xs: &[&str]) -> Vec<String> {
    xs.iter().map(|x| x.to_string()).collect()
}

fn combo(name: &str, cmds: &[&str], t: i64) -> Combo {
    Combo { name: s(name), commands: strings(cmds), last_used: t }
}

fn names(cs: &[Combo]) -> Vec<String> {
    cs.iter().map(|c| c.name.clone()).collect()
}

#[test]
fn sanitize_takes_first_token_lowered() {
    assert_eq!(sanitize_name("deploy staging"), "deploy");
    assert_eq!(sanitize_name("  Git.Push origin"), "git_push");
    assert_eq!(sanitize_name("   "), "combo");
    assert_eq!(sanitize_name(""), "combo");
    assert_eq!(sanitize_name("\tnpm-run\ttest"), "npm_run");
}

#[test]
fn sanitize_cuts_at_sixty_four() {
    let long = "A".repeat(100);
    let r = sanitize_name(&long);
    assert_eq!(r, "a".repeat(64));
}

#[test]
fn auto_name_skips_taken_suffixes() {
    let mut cs = vec![combo("deploy_0", &["x"], 1), combo("deploy_1", &["y"], 2)];
    add_combo(&mut cs, strings(&["cd app", "deploy staging"]), None, 50);
    assert_eq!(cs.len(), 3);
    assert_eq!(cs[2].name, "deploy_2");
    assert_eq!(cs[2].commands, strings(&["cd app", "deploy staging"]));
    assert_eq!(cs[2].last_used, 50);
}

#[test]
fn auto_name_takes_smallest_free_suffix() {
    let mut cs = vec![combo("ls_1", &["x"], 1)];
    add_combo(&mut cs, strings(&["ls -la"]), None, 7);
    assert_eq!(cs[1].name, "ls_0");
    add_combo(&mut cs, strings(&["ls"]), None, 8);
    assert_eq!(cs[2].name, "ls_2");
}

#[test]
fn auto_name_for_no_commands_is_combo() {
    let mut cs = Vec::new();
    add_combo(&mut cs, Vec::new(), None, 3);
    assert_eq!(cs[0].name, "combo_0");
}

#[test]
fn explicit_name_is_kept() {
    let mut cs = vec![combo("mine", &["a"], 1)];
    add_combo(&mut cs, strings(&["b"]), Some(s("mine")), 2);
    assert_eq!(names(&cs), strings(&["mine", "mine"]));
}

#[test]
fn add_now_stamps_present_time() {
    let mut cs = Vec::new();
    let t = add_combo_now(&mut cs, strings(&["echo hi"]), None);
    assert_eq!(cs[0].last_used, t);
    assert!(t > 1_600_000_000);
    assert_eq!(cs[0].name, "echo_0");
}

#[test]
fn delete_removes_every_exact_match() {
    let mut cs = vec![combo("a", &["1"], 1), combo("b", &["2"], 2), combo("a", &["3"], 3), combo("ab", &["4"], 4)];
    assert!(delete_combo(&mut cs, "a"));
    assert_eq!(names(&cs), strings(&["b", "ab"]));
}

#[test]
fn delete_missing_is_noop() {
    let mut cs = vec![combo("a", &["1"], 1)];
    assert!(!delete_combo(&mut cs, "A"));
    assert_eq!(names(&cs), strings(&["a"]));
}

#[test]
fn update_last_used_stamps_first_match() {
    let mut cs = vec![combo("a", &["1"], 1), combo("b", &["2"], 2), combo("b", &["3"], 3)];
    update_last_used(&mut cs, "b", 99);
    assert_eq!(cs[1].last_used, 99);
    assert_eq!(cs[2].last_used, 3);
    update_last_used(&mut cs, "zzz", 100);
    assert_eq!(cs.iter().map(|c| c.last_used).collect::<Vec<_>>(), vec![1, 99, 3]);
    assert_eq!(find_combo(&cs, "b"), Some(1));
    assert_eq!(find_combo(&cs, "c"), None);
}

#[test]
fn sort_is_most_recent_first_and_stable() {
    let cs = vec![combo("a", &[], 5), combo("b", &[], 9), combo("c", &[], 5), combo("d", &[], 1)];
    let r = sort_by_recency(cs);
    assert_eq!(names(&r), strings(&["b", "a", "c", "d"]));
}

#[test]
fn listing_lines() {
    let cs = vec![combo("old", &[], -3), combo("new", &[], 120)];
    assert_eq!(listing(cs), strings(&["new (last used: 120)", "old (last used: -3)"]));
}

#[test]
fn finalize_follows_history_order() {
    let history = strings(&["git status", "npm test", "git push"]);
    let mut b = StackBuilder::new(history, None).unwrap();
    b.handle(StackKey::ToggleMode);
    assert!(!b.selection_mode);
    b.handle(StackKey::Add);
    b.handle(StackKey::Up);
    b.handle(StackKey::Up);
    b.handle(StackKey::Add);
    match b.handle(StackKey::Finalize) {
        StackStep::Finished(r) => assert_eq!(r, strings(&["git status", "git push"])),
        _ => panic!("expected a finished stack"),
    }
}

#[test]
fn moving_in_selection_mode_paints() {
    let history = strings(&["a", "b", "c", "d"]);
    let mut b = StackBuilder::new(history, None).unwrap();
    b.handle(StackKey::Up);
    b.handle(StackKey::Up);
    b.handle(StackKey::Remove);
    b.handle(StackKey::Down);
    assert_eq!(b.finalize(), strings(&["c", "d"]));
    b.handle(StackKey::ToggleMode);
    assert_eq!(b.finalize(), strings(&["d"]));
    b.handle(StackKey::Down);
    assert_eq!(b.cursor, 3);
    assert!(matches!(b.handle(StackKey::Cancel), StackStep::Cancelled));
}

#[test]
fn builder_starts_from_prior_stack() {
    let history = strings(&["a", "b", "a", "c"]);
    let b = StackBuilder::new(history.clone(), Some(strings(&["c", "a", "zz"]))).unwrap();
    assert_eq!(b.finalize(), strings(&["a", "c"]));
    assert_eq!(b.selected, vec![true, false, false, true]);
    let b2 = StackBuilder::new(history, Some(strings(&["zz"]))).unwrap();
    assert_eq!(b2.finalize(), strings(&["c"]));
    assert!(StackBuilder::new(Vec::new(), None).is_none());
}

#[test]
fn save_menu_moves_and_chooses() {
    let mut m = SaveMenu::new();
    assert_eq!(m.handle(MenuKey::Enter), MenuStep::Chosen(SaveOption::SaveAsCombo));
    m.handle(MenuKey::Up);
    assert_eq!(m.cursor, 0);
    for _ in 0..5 {
        m.handle(MenuKey::Down);
    }
    assert_eq!(m.cursor, 3);
    assert_eq!(m.handle(MenuKey::Enter), MenuStep::Chosen(SaveOption::Edit));
    m.handle(MenuKey::Up);
    assert_eq!(m.handle(MenuKey::Enter), MenuStep::Chosen(SaveOption::SaveAsScript));
    m.handle(MenuKey::Up);
    assert_eq!(m.handle(MenuKey::Enter), MenuStep::Chosen(SaveOption::SaveAsFunction));
    assert_eq!(m.handle(MenuKey::Escape), MenuStep::Cancelled);
}

#[test]
fn prompt_types_and_submits() {
    let mut p = TextPrompt::new();
    assert!(matches!(p.handle(PromptKey::Enter), PromptStep::SubmittedBlank));
    p.handle(PromptKey::Backspace);
    p.handle(PromptKey::Char('a'));
    p.handle(PromptKey::Char('b'));
    p.handle(PromptKey::Char('c'));
    p.handle(PromptKey::Backspace);
    assert_eq!(p.input, "ab");
    match p.handle(PromptKey::Enter) {
        PromptStep::Submitted(t) => assert_eq!(t, "ab"),
        _ => panic!("expected a submission"),
    }
    assert!(matches!(p.handle(PromptKey::Escape), PromptStep::Escaped));
}

#[test]
fn empty_filter_keeps_everything() {
    let cs = vec![combo("deploy_0", &[], 1), combo("build", &[], 2)];
    assert_eq!(names(&filter_combos(&cs, "")), strings(&["deploy_0", "build"]));
}

#[test]
fn unmatched_filter_keeps_nothing() {
    let cs = vec![combo("deploy_0", &[], 1), combo("build", &[], 2)];
    assert!(filter_combos(&cs, "xyzq").is_empty());
    assert_eq!(names(&filter_combos(&cs, "dpl")), strings(&["deploy_0"]));
}

#[test]
fn longer_filter_never_grows() {
    let cs = vec![combo("deploy_0", &[], 1), combo("docker_up", &[], 2), combo("build", &[], 3)];
    let mut last = cs.len();
    for pat in ["d", "do", "doc", "dock"] {
        let n = filter_combos(&cs, pat).len();
        assert!(n <= last);
        last = n;
    }
    assert_eq!(last, 1);
}

#[test]
fn picker_filters_and_picks() {
    let cs = vec![combo("alpha", &["a1", "a2"], 1), combo("beta", &["b1"], 5), combo("gamma", &["g"], 3)];
    let mut p = ComboPicker::new(cs);
    assert_eq!(names(&p.filtered), strings(&["beta", "gamma", "alpha"]));
    p.handle(PickerKey::Down);
    assert_eq!(p.preview().unwrap(), &strings(&["g"]));
    p.handle(PickerKey::Char('a'));
    p.handle(PickerKey::Char('l'));
    assert_eq!(p.highlighted, 0);
    assert_eq!(names(&p.filtered), strings(&["alpha"]));
    p.handle(PickerKey::Char('q'));
    assert!(p.filtered.is_empty());
    assert!(p.preview().is_none());
    assert!(matches!(p.handle(PickerKey::Enter), PickerStep::Done(None)));
    p.handle(PickerKey::Backspace);
    match p.handle(PickerKey::Enter) {
        PickerStep::Done(Some(n)) => assert_eq!(n, "alpha"),
        _ => panic!("expected a pick"),
    }
    assert!(matches!(p.handle(PickerKey::Escape), PickerStep::Done(None)));
}

#[test]
fn script_and_function_text() {
    let cmds = strings(&["cd x", "make"]);
    assert_eq!(join_lines(&cmds), "cd x\nmake");
    assert_eq!(join_lines(&Vec::new()), "");
    assert_eq!(shell_function("build", &cmds), "\nbuild () { \ncd x\nmake\n }\n");
    assert_eq!(function_name_for(9), "command_10");
}

#[test]
fn history_file_choice() {
    assert_eq!(shell_kind("/bin/zsh"), ShellKind::Zsh);
    assert_eq!(shell_kind("/usr/bin/fish"), ShellKind::Fish);
    assert_eq!(shell_kind("/bin/bash"), ShellKind::Other);
    assert_eq!(history_file(ShellKind::Zsh, None), "~/.zsh_history");
    assert_eq!(history_file(ShellKind::Other, Some(s("/h"))), "/h");
    assert_eq!(history_file(ShellKind::Fish, Some(s("/h"))), "~/.local/share/fish/fish_history");
}

#[test]
fn recent_commands_keeps_last_n() {
    let lines = strings(&["a", "b", "c", "d"]);
    assert_eq!(recent_commands(ShellKind::Other, lines.clone(), 2), strings(&["c", "d"]));
    assert_eq!(recent_commands(ShellKind::Zsh, lines, 10), strings(&["a", "b", "c", "d"]));
    let fish = strings(&["- cmd: ls", "  when: 1", "- cmd: git push", "- cmd: make"]);
    assert_eq!(recent_commands(ShellKind::Fish, fish, 2), strings(&["git push", "make"]));
}

#[test]
fn split_lines_like_str_lines() {
    for text in ["", "a", "a\n", "a\nb", "a\r\nb\r\n", "\n\nx", "x\r", "a\rb\n", "é ü\nñ"] {
        let expected: Vec<String> = text.lines().map(|l| l.to_string()).collect();
        assert_eq!(split_lines(text), expected, "text {:?}", text);
    }
    assert_eq!(split_lines("git status\nmake\n"), strings(&["git status", "make"]));
}
