use langcodec_cli::ui::{accent, divider, header, key_value, muted, section, status_line, tone_text, Tone};

#[test]
fn plain_headings() {
    assert_eq!(header("Stats", false), "=== Stats ===");
    assert_eq!(section("Details", false), "\n=== Details ===");
}

#[test]
fn plain_key_value_and_status() {
    assert_eq!(key_value("Language", "fr", false), "Language: fr");
    assert_eq!(status_line(Tone::Success, "Done", false), "✅ Done");
    assert_eq!(status_line(Tone::Error, "Failed", false), "❌ Failed");
}

#[test]
fn styled_key_value_pads_by_display_width() {
    let narrow = key_value("Language", "fr", true);
    assert!(narrow.contains(&format!("{}fr", " ".repeat(10))));
    assert!(!narrow.contains(&format!("{}fr", " ".repeat(11))));
    let wide = key_value("言語", "fr", true);
    assert!(wide.contains(&format!("{}fr", " ".repeat(14))));
    assert!(!wide.contains(&format!("{}fr", " ".repeat(15))));
}

fn one_of(r: &str, a: &str, b: &str) -> bool {
    r == a || r == b
}

#[test]
fn styled_text_is_crossterms_rendering() {
    let r = tone_text("hi", Tone::Success, true);
    assert!(one_of(&r, "\x1b[38;5;10m\x1b[1mhi\x1b[0m", "\x1b[m\x1b[1mhi\x1b[0m"), "{:?}", r);
    let r = accent("note", true);
    assert!(one_of(&r, "\x1b[38;5;14m\x1b[1mnote\x1b[0m", "\x1b[m\x1b[1mnote\x1b[0m"), "{:?}", r);
    let r = muted("dim", true);
    assert!(one_of(&r, "\x1b[38;5;8mdim\x1b[39m", "\x1b[mdim\x1b[m"), "{:?}", r);
    let r = status_line(Tone::Error, "boom", true);
    assert!(one_of(&r, "\x1b[38;5;9m\x1b[1m ERR \x1b[0m boom", "\x1b[m\x1b[1m ERR \x1b[0m boom"), "{:?}", r);
    let r = divider(3, true);
    assert!(one_of(&r, "\x1b[38;5;8m───\x1b[39m", "\x1b[m───\x1b[m"), "{:?}", r);
}
