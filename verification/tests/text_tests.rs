use gif_lab::text::{match_command, parse_grid_dim, requires_image};

#[test]
fn parse_grid_dim_basic_forms() {
    assert_eq!(parse_grid_dim("3x3"), Some((3, 3)));
    assert_eq!(parse_grid_dim("3X4"), Some((3, 4)));
    assert_eq!(parse_grid_dim("2 * 5"), Some((2, 5)));
    assert_eq!(parse_grid_dim("7×2"), Some((7, 2)));
    assert_eq!(parse_grid_dim("10 x 10"), Some((10, 10)));
}

#[test]
fn parse_grid_dim_finds_leftmost_phrase() {
    assert_eq!(parse_grid_dim("ab 12×7cd"), Some((12, 7)));
    assert_eq!(parse_grid_dim("12ab3x4"), Some((3, 4)));
}

#[test]
fn parse_grid_dim_rejects_bad_input() {
    assert_eq!(parse_grid_dim(""), None);
    assert_eq!(parse_grid_dim("x3"), None);
    assert_eq!(parse_grid_dim("3x"), None);
    assert_eq!(parse_grid_dim("axb"), None);
    assert_eq!(parse_grid_dim("3 3"), None);
}

#[test]
fn parse_grid_dim_rejects_zero_and_overflow() {
    assert_eq!(parse_grid_dim("0x3"), None);
    assert_eq!(parse_grid_dim("3x0"), None);
    assert_eq!(parse_grid_dim("99999999999x2"), None);
    assert_eq!(parse_grid_dim("4294967295x1"), Some((4294967295, 1)));
    assert_eq!(parse_grid_dim("4294967296x1"), None);
}

#[test]
fn match_command_ignores_case() {
    assert_eq!(match_command("GIFHELP"), Some("gifhelp"));
    assert_eq!(match_command("gifhelp"), Some("gifhelp"));
    assert_eq!(match_command("gif帮助"), Some("gif帮助"));
    assert_eq!(match_command("GIF倒放"), Some("gif倒放"));
    assert_eq!(match_command("合成gif"), Some("合成gif"));
    assert_eq!(match_command("something else"), None);
    assert_eq!(match_command(""), None);
}

#[test]
fn requires_image_spares_only_help() {
    assert!(!requires_image("gif帮助"));
    assert!(!requires_image("gifhelp"));
    assert!(requires_image("gif倒放"));
    assert!(requires_image("gif拼图"));
}
