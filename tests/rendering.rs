use space55::highlight::render_lines;
use space55::{Palette, Rgba, TextEditor};
use syntect::highlighting::ThemeSet;
use syntect::parsing::SyntaxSet;

#[test]
fn new_buffer_is_rendered_plain() {
    let ed = TextEditor::new("a\nbc");
    let r = ed.rendered();
    assert_eq!(r.len(), 2);
    assert_eq!(r[1].len(), 1);
    assert_eq!(r[1][0].text, "bc");
}

#[test]
fn plain_rendering_is_one_white_run_per_line() {
    let mut ed = TextEditor::new("fn main() {}\nlet x = 1;");
    ed.rehighlight(None);
    let r = ed.rendered();
    assert_eq!(r.len(), 2);
    assert_eq!(r[0].len(), 1);
    assert_eq!(r[0][0].text, "fn main() {}");
    assert_eq!(r[1][0].text, "let x = 1;");
    assert_eq!(r[1][0].color, Rgba { r: 255, g: 255, b: 255, a: 255 });
}

#[test]
fn syntax_rendering_covers_each_line() {
    let syntaxes = SyntaxSet::load_defaults_nonewlines();
    let themes = ThemeSet::load_defaults();
    let theme = &themes.themes["base16-ocean.dark"];
    let palette = Palette::for_extension(&syntaxes, theme, "rs").unwrap();
    assert!(Palette::for_extension(&syntaxes, theme, "no-such-extension").is_none());
    let lines = vec![String::from("/* a"), String::from("b */ fn f() {}")];
    let r = render_lines(&lines, Some(&palette));
    assert_eq!(r.len(), 2);
    for (line, runs) in lines.iter().zip(r.iter()) {
        let joined: String = runs.iter().map(|c| c.text.as_str()).collect();
        assert_eq!(&joined, line);
    }
    assert!(r[1].len() > 1);
    // the comment opened on the first line still colours the second
    assert_eq!(r[0][0].color, r[1][0].color);
    let mut ed = TextEditor::new("fn f() {}\nlet s = \"x\";");
    ed.rehighlight(Some(&palette));
    assert_eq!(ed.rendered().len(), 2);
    let joined: String = ed.rendered()[1].iter().map(|c| c.text.as_str()).collect();
    assert_eq!(joined, "let s = \"x\";");
}
