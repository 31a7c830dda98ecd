use perfo::help::{
    colorized, cols, help_lines, hdr, key, page, txt, HelpRow, Lang, RowKind, Tone, HELP_PAGES,
};

fn texts(line: &[perfo::help::StyledSpan]) -> Vec<(&str, Tone, bool)> {
    line.iter().map(|s| (s.text.as_str(), s.tone, s.bold)).collect()
}

#[test]
fn colored_segments_are_split_and_spaced() {
    let l = colorized("g:verde <5 | y:amarelo 5-10 | r:vermelho >10");
    assert_eq!(
        texts(&l),
        vec![
            ("verde <5", Tone::Green, false),
            ("   ", Tone::Plain, false),
            ("amarelo 5-10", Tone::Yellow, false),
            ("   ", Tone::Plain, false),
            ("vermelho >10", Tone::Red, false),
            ("   ", Tone::Plain, false),
        ]
    );
    let a = colorized("a:azul | cinza = livre");
    assert_eq!(a[0].tone, Tone::Accent);
    assert_eq!(a[2].text, "cinza = livre");
    assert_eq!(a[2].tone, Tone::Fg);
    assert_eq!(colorized("").len(), 2);
    assert_eq!(colorized("a||b").len(), 6);
}

#[test]
fn rows_become_styled_lines() {
    let rows: Vec<HelpRow> = vec![hdr("KEYS"), key("q", "quit"), txt("plain"), cols("g:ok")];
    assert_eq!(rows[1].kind, RowKind::Key);
    let lines = help_lines(&rows);
    assert_eq!(lines.len(), 4);
    assert_eq!(texts(&lines[0]), vec![("  KEYS", Tone::Accent, true)]);
    assert_eq!(
        texts(&lines[1]),
        vec![("  q           ", Tone::Yellow, false), ("quit", Tone::Fg, false)]
    );
    assert_eq!(texts(&lines[2]), vec![("plain", Tone::Fg, false)]);
    assert_eq!(texts(&lines[3])[0], ("ok", Tone::Green, false));
    let long = help_lines(&[key("r_awt/w_awt/xx", "x")]);
    assert_eq!(long[0][0].text, "  r_awt/w_awt/xx");
    let wide = help_lines(&[key("← →", "x")]);
    assert_eq!(wide[0][0].text.chars().count(), 14);
}

#[test]
fn every_page_has_a_title_and_lines() {
    for lang in [Lang::Pt, Lang::En] {
        for n in 0..HELP_PAGES {
            let (title, lines) = page(n, lang);
            assert!(title.starts_with(&format!("help {}/5", n + 1)));
            assert!(!lines.is_empty());
        }
    }
    let (title, lines) = page(0, Lang::En);
    assert_eq!(title, "help 1/5 — keys");
    assert_eq!(lines.len(), 18);
    assert_eq!(lines[0][0].text, "  PAGES — Tab cycles");
    assert_eq!(page(4, Lang::Pt).1.len(), 30);
}
