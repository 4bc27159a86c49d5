use xeorvi::render::{hint_line, prompt_line, top_bar, Style};

fn texts(v: &[xeorvi::render::Span]) -> Vec<String> {
    v.iter().map(|s| s.text.clone()).collect()
}

fn strs(v: &[&str]) -> Vec<String> {
    v.iter().map(|s| s.to_string()).collect()
}

#[test]
fn short_input_shows_the_empty_hint() {
    let spans = hint_line("e", &strs(&["echo"]), 80);
    assert_eq!(texts(&spans), strs(&["╚═══════╝", " {}"]));
    assert!(spans[1].style == Style::Faint);
}

#[test]
fn no_match_shows_the_empty_hint() {
    let spans = hint_line("zz", &Vec::new(), 80);
    assert_eq!(texts(&spans), strs(&["╚═══════╝", " {}"]));
}

#[test]
fn suggestions_are_cut_at_the_terminal_edge() {
    let shown = strs(&["echo", "ecn", "ecpg"]);
    let spans = hint_line("ec", &shown, 80);
    assert_eq!(texts(&spans), strs(&["╚═══════╝", " {ec", "|", "ho}", " | ecn", " | ecpg"]));
    assert!(spans[1].style == Style::Lead);
    assert!(spans[4].style == Style::Dim);
    // frame 9, head 4 + 1 + 3 = 17; " | ecn" reaches 23, " | ecpg" reaches 30
    let spans = hint_line("ec", &shown, 30);
    assert_eq!(texts(&spans), strs(&["╚═══════╝", " {ec", "|", "ho}", " | ecn"]));
    let spans = hint_line("ec", &shown, 23);
    assert_eq!(texts(&spans).len(), 4);
}

#[test]
fn exact_match_is_shown_whole() {
    let spans = hint_line("ls", &strs(&["ls", "lsblk"]), 80);
    assert_eq!(texts(&spans), strs(&["╚═══════╝", " {", "ls", "}", " | lsblk"]));
}

#[test]
fn prompt_with_and_without_branch() {
    let spans = prompt_line("ann", "main", "ls");
    assert_eq!(texts(&spans), strs(&["╠┈", "«ann»", "┈Git(", "main", ")", "∑◈ ", "ls"]));
    let spans = prompt_line("ann", "", "");
    assert_eq!(texts(&spans), strs(&["╠┈", "«ann»", "∑◈ ", ""]));
}

#[test]
fn top_bar_fills_the_width() {
    let bar = top_bar("src", 12);
    assert_eq!(bar, "╔┈src/┈═════");
    assert_eq!(bar.chars().count(), 12);
    assert_eq!(top_bar("a-long-name", 5), "╔┈a-long-name/┈");
}
