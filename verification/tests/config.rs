use sqbrowser::config::{parse_color, ColorConfig, ColorError, Config, Rgb};

#[test]
fn test_parse_color() {
    assert!(matches!(parse_color("#ff0000"), Ok(Rgb { r: 255, g: 0, b: 0 })));
    assert!(matches!(parse_color("#00ff00ff"), Ok(Rgb { r: 0, g: 255, b: 0 })));
    assert!(matches!(parse_color("464b57ff"), Ok(Rgb { r: 70, g: 75, b: 87 })));
    assert!(parse_color("#invalid").is_err());
}

#[test]
fn test_default_config() {
    let config = Config::default();
    assert_eq!(config.colors.border, "#464b57ff");
    assert_eq!(config.colors.text, "#dce0e5ff");
}

#[test]
fn default_colors_all_parse() {
    let c = ColorConfig::default();
    let all = vec![
        c.border, c.text, c.number, c.selected_border, c.selected_text, c.selected_bg,
        c.edit_border, c.edit_text, c.edit_bg, c.header, c.status, c.error, c.help, c.help_bg,
        c.help_title, c.help_section_header, c.help_key, c.help_description, c.column_header,
        c.query_bg, c.query_text, c.query_border, c.edit_area_bg, c.detailed_view_bg,
        c.detailed_view_border, c.detailed_view_title, c.detailed_view_field,
        c.detailed_view_value,
    ];
    assert_eq!(all.len(), 28);
    for text in all {
        assert!(parse_color(&text).is_ok(), "{}", text);
    }
}

#[test]
fn parse_color_errors() {
    assert_eq!(parse_color(""), Err(ColorError::InvalidFormat));
    assert_eq!(parse_color("#"), Err(ColorError::InvalidFormat));
    assert_eq!(parse_color("#12345"), Err(ColorError::InvalidFormat));
    assert_eq!(parse_color("#1234567"), Err(ColorError::InvalidFormat));
    assert_eq!(parse_color("#123456789"), Err(ColorError::InvalidFormat));
    assert_eq!(parse_color("#invalid"), Err(ColorError::InvalidFormat));
    assert_eq!(parse_color("#gg0000"), Err(ColorError::InvalidDigit));
    assert_eq!(parse_color("#00 000"), Err(ColorError::InvalidDigit));
    assert_eq!(parse_color("#-10000"), Err(ColorError::InvalidDigit));
}

#[test]
fn parse_color_reads_pairs_like_u8_from_str_radix() {
    assert_eq!(parse_color("##AbCdEf"), Ok(Rgb { r: 0xab, g: 0xcd, b: 0xef }));
    assert_eq!(parse_color("+f+0+a"), Ok(Rgb { r: 15, g: 0, b: 10 }));
    assert_eq!(parse_color("000000zz"), Ok(Rgb { r: 0, g: 0, b: 0 }));
    let digits = "0123456789abcdefABCDEF+-gG xX";
    for hi in digits.chars() {
        for lo in digits.chars() {
            let pair: String = vec![hi, lo].into_iter().collect();
            let text = format!("{}0000", pair);
            let expected = u8::from_str_radix(&pair, 16).ok();
            let got = parse_color(&text).ok().map(|c| c.r);
            assert_eq!(got, expected, "{:?}", pair);
        }
    }
}
