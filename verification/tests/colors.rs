use gate_graph::color_text::{read_color_text, ColorText, ColorTextError};
use gate_graph::term::Color;

fn color(r: u8, g: u8, b: u8, a: u8) -> Result<ColorText, ColorTextError> {
    Ok(ColorText::Color(Color { r, g, b, a }))
}

#[test]
fn hex_codes() {
    assert_eq!(read_color_text(b"#FF8000"), color(255, 128, 0, 255));
    assert_eq!(read_color_text(b"#ff8000"), color(255, 128, 0, 255));
    assert_eq!(read_color_text(b"#11223344"), color(0x11, 0x22, 0x33, 0x44));
    // the standard library's number reading takes a leading plus
    assert_eq!(read_color_text(b"#+12345"), color(0x01, 0x23, 0x45, 255));
}

#[test]
fn hex_code_errors() {
    assert_eq!(read_color_text(b"#12345"), Err(ColorTextError::InvalidLength(5)));
    assert_eq!(read_color_text(b"#"), Err(ColorTextError::InvalidLength(0)));
    assert_eq!(read_color_text(b"#GG0000"), Err(ColorTextError::InvalidNumber));
    assert_eq!(read_color_text(b"#-12345"), Err(ColorTextError::InvalidNumber));
}

#[test]
fn rgb_parts() {
    assert_eq!(read_color_text(b"rgb(1,2,3)"), color(1, 2, 3, 255));
    assert_eq!(read_color_text(b"rgb(255,+0,007)"), color(255, 0, 7, 255));
    // parts past the third are not read
    assert_eq!(read_color_text(b"rgb(1,2,3,4)"), color(1, 2, 3, 255));
    assert_eq!(read_color_text(b"rgb(1,2)"), Err(ColorTextError::Missing));
    assert_eq!(read_color_text(b"rgb(1,2,300)"), Err(ColorTextError::InvalidPart));
    assert_eq!(read_color_text(b"rgb(1, 2, 3)"), Err(ColorTextError::InvalidPart));
    assert_eq!(read_color_text(b"rgb()"), Err(ColorTextError::InvalidPart));
    assert_eq!(read_color_text(b"rgb(x,2)"), Err(ColorTextError::InvalidPart));
}

#[test]
fn rgba_leaves_the_alpha_text() {
    let text = b"rgba(10,20,30,0.5)";
    assert_eq!(
        read_color_text(text),
        Ok(ColorText::WithAlpha { r: 10, g: 20, b: 30, start: 14, end: 17 })
    );
    assert_eq!(&text[14..17], b"0.5");
    assert_eq!(read_color_text(b"rgba(1,2,3)"), Err(ColorTextError::Missing));
    assert_eq!(read_color_text(b"rgba(1,2,3,)"), Ok(ColorText::WithAlpha { r: 1, g: 2, b: 3, start: 11, end: 11 }));
}

#[test]
fn anything_else_is_a_name() {
    assert_eq!(read_color_text(b"crimson"), Ok(ColorText::Name));
    assert_eq!(read_color_text(b""), Ok(ColorText::Name));
    assert_eq!(read_color_text(b"rgb("), Ok(ColorText::Name));
    assert_eq!(read_color_text(b"rgb(1,2,3"), Ok(ColorText::Name));
}
