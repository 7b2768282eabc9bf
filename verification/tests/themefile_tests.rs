use masq::theme::Theme;
use masq::themefile::{generate_theme, parse_theme, ParseError};

fn sample_theme() -> Theme {
    Theme {
        accent: 0xff0000,
        accent_deep: 0x880000,
        foreground: 0xffffff,
        complement: 0x00ff00,
        dark: 0x000000,
        light_dark: 0x222222,
    }
}

#[test]
fn round_trip_generate_then_parse() {
    let theme = sample_theme();
    let bytes = generate_theme(&theme);
    let parsed = parse_theme(bytes.as_slice()).expect("generated file must parse");
    assert_eq!(parsed, theme);
    assert_eq!(parsed.accent, 0xff0000);
    assert_eq!(parsed.accent_deep, 0x880000);
    assert_eq!(parsed.foreground, 0xffffff);
    assert_eq!(parsed.complement, 0x00ff00);
    assert_eq!(parsed.dark, 0x000000);
    assert_eq!(parsed.light_dark, 0x222222);
}

#[test]
fn round_trip_extreme_values() {
    let theme = Theme {
        accent: 0,
        accent_deep: u32::MAX,
        foreground: 1,
        complement: 10,
        dark: 4294967294,
        light_dark: 0x7fffffff,
    };
    let bytes = generate_theme(&theme);
    assert_eq!(parse_theme(bytes.as_slice()), Ok(theme));
}

#[test]
fn generated_file_is_readable_text() {
    let bytes = generate_theme(&sample_theme());
    let text = String::from_utf8(bytes).expect("generated file is UTF-8");
    assert_eq!(
        text,
        "[theme]\n\
         accent = 16711680\n\
         accent_deep = 8912896\n\
         foreground = 16777215\n\
         complement = 65280\n\
         dark = 0\n\
         light_dark = 2236962\n"
    );
}

#[test]
fn generated_file_is_valid_toml() {
    let bytes = generate_theme(&sample_theme());
    let text = String::from_utf8(bytes).expect("generated file is UTF-8");
    let table: toml::Table = text.parse().expect("generated file is valid TOML");
    let theme = table["theme"].as_table().expect("theme section is a table");
    assert_eq!(theme["accent"].as_integer(), Some(0xff0000));
    assert_eq!(theme["accent_deep"].as_integer(), Some(0x880000));
    assert_eq!(theme["foreground"].as_integer(), Some(0xffffff));
    assert_eq!(theme["complement"].as_integer(), Some(0x00ff00));
    assert_eq!(theme["dark"].as_integer(), Some(0x000000));
    assert_eq!(theme["light_dark"].as_integer(), Some(0x222222));
}

#[test]
fn parse_accepts_hex_and_decimal_values() {
    let source = "[theme]\n\
                  accent = 0xff0000\n\
                  accent_deep = 0X880000\n\
                  foreground = 16777215\n\
                  complement = 0x00FF00\n\
                  dark = 0\n\
                  light_dark = 0x222222\n";
    let parsed = parse_theme(source.as_bytes()).expect("hex values must parse");
    assert_eq!(parsed, sample_theme());
}

#[test]
fn parse_tolerates_comments_blanks_crlf_and_unknown_keys() {
    let source = "# a shared base colorscheme\r\n\
                  \r\n\
                  [theme]\r\n\
                  accent = 16711680\r\n\
                  shade = 99\r\n\
                  accent_deep\t=\t8912896\r\n\
                  foreground = 16777215\r\n\
                  complement = 65280\r\n\
                  dark = 0\r\n\
                  # trailing comment\r\n\
                  light_dark = 2236962\r\n\
                  [other]\r\n\
                  accent = notanumber\r\n";
    let parsed = parse_theme(source.as_bytes()).expect("tolerant input must parse");
    assert_eq!(parsed, sample_theme());
}

#[test]
fn parse_rejects_each_missing_field() {
    let keys = [
        "accent",
        "accent_deep",
        "foreground",
        "complement",
        "dark",
        "light_dark",
    ];
    for omitted in keys {
        let mut source = String::from("[theme]\n");
        for key in keys {
            if key != omitted {
                source.push_str(key);
                source.push_str(" = 1\n");
            }
        }
        assert_eq!(
            parse_theme(source.as_bytes()),
            Err(ParseError::MissingField),
            "omitting {omitted} must be rejected"
        );
    }
}

#[test]
fn parse_resumes_a_reopened_theme_section() {
    let source = "  [theme]  \n\
                  accent = 16711680\n\
                  accent_deep = 8912896\n\
                  [other]\n\
                  dark = 99\n\
                  [theme]\n\
                  foreground = 16777215\n\
                  complement = 65280\n\
                  dark = 0\n\
                  light_dark = 2236962\n";
    let parsed = parse_theme(source.as_bytes()).expect("reopened section keeps collecting");
    assert_eq!(parsed, sample_theme());
}

#[test]
fn parse_rejects_empty_source() {
    assert_eq!(parse_theme(b""), Err(ParseError::MissingField));
}

#[test]
fn parse_rejects_fields_outside_theme_section() {
    let source = "accent = 1\n\
                  accent_deep = 1\n\
                  foreground = 1\n\
                  complement = 1\n\
                  dark = 1\n\
                  light_dark = 1\n";
    assert_eq!(parse_theme(source.as_bytes()), Err(ParseError::MissingField));
}

#[test]
fn parse_rejects_non_numeric_value() {
    let source = "[theme]\n\
                  accent = red\n\
                  accent_deep = 1\n\
                  foreground = 1\n\
                  complement = 1\n\
                  dark = 1\n\
                  light_dark = 1\n";
    assert_eq!(parse_theme(source.as_bytes()), Err(ParseError::InvalidValue));
}

#[test]
fn parse_rejects_value_too_wide_for_32_bits() {
    let source = "[theme]\n\
                  accent = 4294967296\n";
    assert_eq!(parse_theme(source.as_bytes()), Err(ParseError::InvalidValue));
    let source_hex = "[theme]\n\
                      accent = 0x100000000\n";
    assert_eq!(
        parse_theme(source_hex.as_bytes()),
        Err(ParseError::InvalidValue)
    );
    let boundary = "[theme]\n\
                    accent = 4294967295\n\
                    accent_deep = 0xffffffff\n\
                    foreground = 1\n\
                    complement = 1\n\
                    dark = 1\n\
                    light_dark = 1\n";
    let parsed = parse_theme(boundary.as_bytes()).expect("32-bit maximum fits");
    assert_eq!(parsed.accent, u32::MAX);
    assert_eq!(parsed.accent_deep, u32::MAX);
}

#[test]
fn parse_rejects_duplicate_field() {
    let source = "[theme]\n\
                  accent = 1\n\
                  accent = 2\n";
    assert_eq!(
        parse_theme(source.as_bytes()),
        Err(ParseError::DuplicateField)
    );
}

#[test]
fn parse_rejects_malformed_line_in_theme_section() {
    let source = "[theme]\n\
                  accent\n";
    assert_eq!(
        parse_theme(source.as_bytes()),
        Err(ParseError::MalformedLine)
    );
}
