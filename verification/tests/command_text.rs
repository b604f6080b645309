use cjtaskrunner::cli::{open_command_for, should_isolate_child_process_group, Platform};
use cjtaskrunner::command_text::{
    contains_variable_interpolation, interpolate_argv, interpolate_text, split_words, unescape_variable_literals, QuoteMode,
};
use cjtaskrunner::vars::VarMap;

fn chars(s: &str) -> Vec<char> {
    s.chars().collect()
}

#[test]
fn detects_unescaped_variable_interpolation() {
    for input in ["$NAME", "${NAME}", "${NAME?fallback}", "prefix $NAME suffix", "prefix ${NAME} suffix"] {
        assert!(contains_variable_interpolation(&chars(input)), "{input}");
    }
    for input in ["$", "$5", r"\$NAME", r"\${NAME}", "plain text"] {
        assert!(!contains_variable_interpolation(&chars(input)), "{input}");
    }
}

#[test]
fn unescapes_literal_variable_markers() {
    let out: String = unescape_variable_literals(&chars(r"Literal \$NAME and \${NAME}")).into_iter().collect();
    assert_eq!(out, "Literal $NAME and ${NAME}");
}

#[test]
fn open_command_uses_platform_opener() {
    let command = open_command_for("https://example.com", Platform::OtherUnix);
    assert_eq!(command.program, "xdg-open");
    assert_eq!(command.args, vec!["https://example.com"]);
}

#[test]
fn terminal_commands_stay_in_the_foreground_process_group() {
    assert!(!should_isolate_child_process_group(true, true));
    assert!(should_isolate_child_process_group(true, false));
    assert!(should_isolate_child_process_group(false, true));
}

fn text(v: &[char]) -> String {
    v.iter().collect()
}

#[test]
fn dollar_free_text_is_left_as_it_is() {
    let mut env = VarMap::new();
    env.insert(chars("NAME"), chars("value"));
    for input in ["plain text", r"back\slash at end\", r"a\b 'quoted' {braces}", ""] {
        for mode in [QuoteMode::Raw, QuoteMode::Shell] {
            let out = interpolate_text(&chars(input), &env, mode).expect("interpolates");
            assert_eq!(text(&out), input);
        }
    }
}

#[test]
fn plain_command_lines_split_at_whitespace() {
    for input in ["echo  one\ttwo\n three ", "", "   ", "single"] {
        let words: Vec<String> = split_words(&chars(input)).expect("splits").iter().map(|w| text(w)).collect();
        let expected: Vec<String> = input.split_whitespace().map(String::from).collect();
        assert_eq!(words, expected, "{input:?}");
    }
}

#[test]
fn interpolated_values_are_never_split_again() {
    let mut env = VarMap::new();
    env.insert(chars("V"), chars("a b; 'c' \"d\""));
    let argv = interpolate_argv(&chars("echo $V ${V} x"), &env).expect("argv");
    let words: Vec<String> = argv.iter().map(|w| text(w)).collect();
    assert_eq!(words, ["echo", "a b; 'c' \"d\"", "a b; 'c' \"d\"", "x"]);
}
