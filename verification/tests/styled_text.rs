use gate_graph::console::LogBuffer;
use gate_graph::icons::{ButtonIconId, NodeIconSheetSetId};
use gate_graph::gate::GateId;
use gate_graph::ivec::{IRect, IVec2};
use gate_graph::ser::{Error, Serializer};
use gate_graph::term::{line_spans, line_styles, Color, ColorItem, LogLevel, Style};
use gate_graph::rich_text::{ColorId, ColorRef, RichStrError, RichStrIter};
use gate_graph::theme::Theme;

#[test]
fn styles_add_up() {
    let s = Style::from_items(&[ColorItem::Bold, ColorItem::ForegroundRed, ColorItem::TruecolorBackground(1, 2, 3)]);
    assert!(s.bold && !s.underline);
    assert_eq!(s.foreground, Some(Color { r: 255, g: 0, b: 0, a: 255 }));
    assert_eq!(s.background, Some(Color { r: 1, g: 2, b: 3, a: 255 }));
    let reset = Style::from_items(&[ColorItem::Underline, ColorItem::Reset]);
    assert_eq!(reset, Style::default());
    let bright = Style::from_items(&[ColorItem::ForegroundBrightCyan, ColorItem::ResetBoldDim]);
    assert_eq!(bright.foreground, Some(Color { r: 0, g: 255, b: 255, a: 255 }));
}

#[test]
fn escape_sequences_in_a_line() {
    let line = b"\x1b[1;31mhot\x1b[38;5;6;7m cold\x1b[0m\n";
    let spans = line_spans(line);
    assert_eq!(spans.len(), 3);
    assert_eq!(spans[0].items, vec![ColorItem::Bold, ColorItem::ForegroundRed]);
    assert_eq!((spans[0].start, spans[0].end), (7, 10));
    assert_eq!(spans[1].items, vec![ColorItem::TruecolorForeground(5, 6, 7)]);
    assert_eq!(&line[spans[1].start..spans[1].end], b" cold");
    assert_eq!(spans[2].items, vec![ColorItem::Reset]);
    assert_eq!(&line[spans[2].start..spans[2].end], b"\n");
    let styles = line_styles(line);
    assert!(styles[0].0.bold);
    assert_eq!(styles[2].0, Style::default());
}

#[test]
fn reading_stops_at_a_bad_sequence() {
    // 256 does not fit a byte; a code without meaning ends the list
    assert_eq!(line_spans(b"\x1b[256mx").len(), 0);
    assert_eq!(line_spans(b"plain").len(), 0);
    assert_eq!(line_spans(b"\x1b[1m").len(), 0);
    let spans = line_spans(b"\x1b[4;99mx");
    assert_eq!(spans.len(), 0);
    let spans = line_spans(b"\x1b[4mx\x1b[mz");
    assert_eq!(spans.len(), 1);
    assert_eq!(spans[0].items, vec![ColorItem::Underline]);
}

#[test]
fn log_buffer_drops_old_lines() {
    let mut log = LogBuffer::with_capacity(10);
    log.push("abc\n");
    log.push("defg\n");
    assert_eq!(log.content_bytes(), b"abc\ndefg\n");
    log.push("hij\n");
    assert_eq!(log.content_bytes(), b"defg\nhij\n");
    log.push("0123456789abc\n");
    assert_eq!(log.content_bytes(), b"456789abc\n");
    log.push("");
    assert_eq!(log.content_bytes(), b"456789abc\n");
    let mut tiny = LogBuffer::with_capacity(4);
    tiny.push("\u{e9}\u{e9}\u{e9}");
    // six bytes cut to their last four, moved on to where a character starts
    assert_eq!(tiny.content_bytes(), "\u{e9}\u{e9}".as_bytes());
    assert_eq!(tiny.capacity(), 4);
}

#[test]
fn mod_test0() {
    let mut ser = Serializer::new(Vec::new());
    ser.serialize_bool(true).unwrap();
    let buf = ser.end().unwrap();
    assert_eq!(&buf, b"true");
}

#[test]
fn mod_test1() {
    let mut ser = Serializer::new(Vec::new());
    let mut tuple = ser.serialize_tuple(2);
    tuple.serialize_element(&mut ser);
    ser.serialize_i32(1).unwrap();
    tuple.serialize_element(&mut ser);
    ser.serialize_i32(5).unwrap();
    tuple.end(&mut ser).unwrap();
    let buf = ser.end().unwrap();
    assert_eq!(&buf, b"1 5");
}

#[test]
fn serializer_writes_plain_values() {
    let mut ser = Serializer::new(b">".to_vec());
    ser.serialize_i128(i128::MIN).unwrap();
    ser.serialize_char(' ').unwrap();
    ser.serialize_u64(18446744073709551615).unwrap();
    ser.serialize_char('\u{e9}').unwrap();
    ser.serialize_str("a\"b").unwrap();
    ser.serialize_bytes(b"!").unwrap();
    ser.serialize_none().unwrap();
    let buf = ser.end().unwrap();
    assert_eq!(
        String::from_utf8(buf).unwrap(),
        ">-170141183460469231731687303715884105728 18446744073709551615\u{e9}\"a\\\"b\"!"
    );
    let mut ser = Serializer::new(Vec::new());
    let e: Error = ser.serialize_unit().unwrap_err();
    assert_eq!(e.message, "unsupported type");
    let e: Error = ser.refuse_named("Thing").unwrap_err();
    assert_eq!(e.message, "unsupported type: Thing");
}

#[test]
fn icon_cells() {
    assert_eq!(GateId::Battery.icon_cell(), IVec2::new(0, 2));
    assert_eq!(GateId::Delay.icon_cell_irec(16), IRect::new(48, 16, 16, 16));
    assert_eq!(ButtonIconId::Settings.icon_cell_irec(32), IRect::new(64, 96, 32, 32));
    assert_eq!(NodeIconSheetSetId::from_zoom_exp(-1), None);
    assert_eq!(NodeIconSheetSetId::from_zoom_exp(5), Some(NodeIconSheetSetId::X32));
    assert_eq!(NodeIconSheetSetId::X16.icon_width(), 16);
}

#[test]
fn rich_text_read_from_the_back() {
    let mut it = RichStrIter::new("\x1B{error}abc\x1B{input}def");
    assert_eq!(it.len(), 2);
    assert_eq!(it.next_back(), Some(Ok((Some(ColorRef::Theme(ColorId::Input)), "def".to_string()))));
    assert_eq!(it.len(), 1);
    assert_eq!(it.next_back(), Some(Ok((Some(ColorRef::Theme(ColorId::Error)), "abc".to_string()))));
    assert_eq!(it.next_back(), None);
    assert_eq!(it.len(), 0);
    // A change is read as a colour from the back, so `push:` is not understood there.
    let mut pushed = RichStrIter::new("x\x1B{push:input}y");
    assert_eq!(pushed.next_back(), Some(Err(RichStrError::InvalidEscapeCode)));
    assert_eq!(pushed.next_back(), Some(Ok((None, "x".to_string()))));
    assert_eq!(pushed.next_back(), None);
    // Text without a change is given whole, once.
    let mut plain = RichStrIter::new("plain");
    assert_eq!(plain.len(), 1);
    assert_eq!(plain.next_back(), Some(Ok((None, "plain".to_string()))));
    assert_eq!(plain.next_back(), None);
    let mut open = RichStrIter::new("x\x1B{input");
    assert_eq!(open.next_back(), Some(Err(RichStrError::InvalidEscapeCode)));
    assert_eq!(open.next_back(), Some(Ok((None, "x".to_string()))));
    assert_eq!(open.next_back(), None);
}

#[test]
fn rich_text_length_counts_the_pieces() {
    for text in ["", "abc", "\x1B{pop}a", "a\x1B{input}b\x1B{pop}", "\x1B{x\x1B{input}y}z", "\x1B{open"] {
        let mut it = RichStrIter::new(text);
        let mut count = 0;
        let len = it.len();
        while it.next().is_some() {
            count += 1;
        }
        assert_eq!(len, count, "{text:?}");
    }
    assert_eq!(RichStrIter::new("").len(), 0);
    assert_eq!(RichStrIter::new("\x1B{pop}a").len(), 1);
}

#[test]
fn log_level_names() {
    assert_eq!(LogLevel::default(), LogLevel::Info);
    assert_eq!(LogLevel::Warning.to_string(), "warning");
    assert_eq!(LogLevel::Fatal.to_string(), "fatal");
    assert_eq!(LogLevel::Attempt.to_string(), "attempt");
}

#[test]
fn theme_colours() {
    let dark = Theme::default();
    assert_eq!(dark.get(ColorId::HyperRef), Color { r: 116, g: 125, b: 237, a: 255 });
    assert_eq!(dark.get(ColorId::Resistance3), Color { r: 255, g: 165, b: 0, a: 255 });
    let mut light = Theme::light_theme();
    assert_eq!(light.get(ColorId::DeadLink), Color { r: 255, g: 228, b: 196, a: 255 });
    assert_eq!(light.get(ColorId::Resistance9), dark.get(ColorId::Resistance9));
    let pink = Color { r: 255, g: 192, b: 203, a: 255 };
    light.set(ColorId::Resistance0, pink);
    assert_eq!(light.get(ColorId::Resistance0), pink);
    assert_eq!(light.get(ColorId::Resistance1), dark.get(ColorId::Resistance1));
    assert_eq!(ColorRef::Theme(ColorId::Resistance0).get(&light), pink);
    assert_eq!(ColorRef::Exact(pink).get(&dark), pink);
    assert_eq!(ColorRef::Theme(ColorId::Background).get(&dark), Color { r: 0, g: 0, b: 0, a: 255 });
}
