use cmdstat::color::{get_color, ColorSpec, NamedColor};

#[test]
fn color_names_in_any_case() {
    assert_eq!(get_color("green"), Ok(ColorSpec::Named(NamedColor::Green)));
    assert_eq!(get_color("DARK_RED"), Ok(ColorSpec::Named(NamedColor::DarkRed)));
    assert_eq!(get_color("DarkMagenta"), Ok(ColorSpec::Named(NamedColor::DarkMagenta)));
    assert_eq!(get_color("grey"), Ok(ColorSpec::Named(NamedColor::Grey)));
}

#[test]
fn rgb_triples() {
    assert_eq!(get_color("132,50,1"), Ok(ColorSpec::Rgb(132, 50, 1)));
    assert_eq!(get_color("0,0,255"), Ok(ColorSpec::Rgb(0, 0, 255)));
}

#[test]
fn rgb_component_out_of_range() {
    assert_eq!(
        get_color("1,256,3"),
        Err("Invalid number for 'g' value in rgb pattern. Valid numbers are 0-255".to_string())
    );
    assert_eq!(
        get_color("999,0,0"),
        Err("Invalid number for 'r' value in rgb pattern. Valid numbers are 0-255".to_string())
    );
}

#[test]
fn palette_codes() {
    assert_eq!(get_color("31"), Ok(ColorSpec::Ansi(31)));
    assert_eq!(
        get_color("300"),
        Err("Invalid number for 'code' value in ansi pattern. Valid numbers are 0-255".to_string())
    );
}

#[test]
fn unknown_color_name() {
    assert_eq!(get_color("Purple"), Err("Invalid color name: 'purple'".to_string()));
    assert_eq!(get_color("1,2"), Err("Invalid color name: '1,2'".to_string()));
    assert_eq!(get_color("1,2,3,4"), Err("Invalid color name: '1,2,3,4'".to_string()));
    assert_eq!(get_color("1234"), Err("Invalid color name: '1234'".to_string()));
    assert_eq!(get_color(""), Err("Invalid color name: ''".to_string()));
}
