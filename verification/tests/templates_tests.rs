use unzip::templates::{Field, Foobar, Structure};
use unzip::terminal::{should_quit, KeyStroke};

#[test]
fn template_records_assemble() {
    let mut foobar = Foobar::new("fooooobaaaaaa");
    let mut s = Structure::new("Foo", "foooooo");
    s.field.push(Field::var("hoge", "HOGE", "const char*"));
    s.field.push(Field::arr("taro", "TARO", "uint32_t", &[3, 2, 10]));
    foobar.structures.push(s);
    assert_eq!(foobar.namespace, "fooooobaaaaaa");
    assert_eq!(foobar.structures[0].name, "Foo");
    assert_eq!(foobar.structures[0].field.len(), 2);
    assert_eq!(foobar.structures[0].field[1].dims, &[3usize, 2, 10][..]);
}

#[test]
fn array_classification() {
    assert!(!Field::var("x", "X", "uint8_t").is_array());
    assert!(!Field::arr("x", "X", "uint8_t", &[1]).is_array());
    assert!(Field::arr("x", "X", "uint8_t", &[2]).is_array());
    assert!(Field::arr("x", "X", "uint8_t", &[1, 1]).is_array());
    assert!(Field::arr("x", "X", "uint32_t", &[3, 2, 10]).is_array());
}

#[test]
fn quit_keys_end_the_demo() {
    let press = |ch: Option<char>, ctrl: bool, none: bool| KeyStroke {
        pressed: true,
        ch,
        ctrl,
        no_modifiers: none,
    };
    assert!(should_quit(&press(Some('q'), false, true)));
    assert!(should_quit(&press(Some('c'), true, false)));
    assert!(!should_quit(&press(Some('q'), true, false)));
    assert!(!should_quit(&press(Some('x'), false, true)));
    assert!(!should_quit(&press(None, false, true)));
    let released = KeyStroke { pressed: false, ch: Some('q'), ctrl: false, no_modifiers: true };
    assert!(!should_quit(&released));
}
