use rfm::graphics::{
    cell_geometry_from_winsize, cells_for, detect_from_env, parse_probe, pixel_box, resolve,
    CellGeometry, GraphicsProtocol, ImageProtocolChoice, ProbeOutcome,
};

fn env_of(pairs: &[(&str, &str)]) -> Vec<(String, String)> {
    pairs
        .iter()
        .map(|(k, v)| (k.to_string(), v.to_string()))
        .collect()
}

#[test]
fn env_tmux_var_resolves_half_block() {
    let env = env_of(&[
        ("TMUX", "/tmp/tmux-1000/default,42,0"),
        ("TERM", "xterm-256color"),
        ("KITTY_WINDOW_ID", "1"),
    ]);
    assert_eq!(detect_from_env(&env), Some(GraphicsProtocol::HalfBlock));
}

#[test]
fn env_screen_and_tmux_term_resolve_half_block() {
    for term in ["screen-256color", "tmux-256color"] {
        let env = env_of(&[("TERM", term), ("KITTY_WINDOW_ID", "1")]);
        assert_eq!(
            detect_from_env(&env),
            Some(GraphicsProtocol::HalfBlock),
            "for TERM={term}"
        );
    }
}

#[test]
fn env_kitty_window_id_resolves_kitty() {
    let env = env_of(&[("TERM", "xterm-256color"), ("KITTY_WINDOW_ID", "7")]);
    assert_eq!(detect_from_env(&env), Some(GraphicsProtocol::Kitty));
}

#[test]
fn env_term_xterm_kitty_resolves_kitty() {
    let env = env_of(&[("TERM", "xterm-kitty")]);
    assert_eq!(detect_from_env(&env), Some(GraphicsProtocol::Kitty));
}

#[test]
fn env_term_program_wezterm_and_ghostty_resolve_kitty() {
    for prog in ["WezTerm", "ghostty"] {
        let env = env_of(&[("TERM", "xterm-256color"), ("TERM_PROGRAM", prog)]);
        assert_eq!(
            detect_from_env(&env),
            Some(GraphicsProtocol::Kitty),
            "for TERM_PROGRAM={prog}"
        );
    }
}

#[test]
fn env_plain_xterm_is_inconclusive() {
    let env = env_of(&[("TERM", "xterm-256color")]);
    assert_eq!(detect_from_env(&env), None);
    let env = env_of(&[]);
    assert_eq!(detect_from_env(&env), None);
}

#[test]
fn kitty_ok_reply_detected() {
    let buf = b"\x1b_Gi=4242;OK\x1b\\\x1b[?62;4;22c";
    let outcome = parse_probe(buf);
    assert!(outcome.kitty_ok);
    assert!(outcome.da1_seen);
}

#[test]
fn kitty_error_reply_is_not_ok() {
    let buf = b"\x1b_Gi=4242;ENOTSUPPORTED:unknown\x1b\\\x1b[?62;22c";
    let outcome = parse_probe(buf);
    assert!(!outcome.kitty_ok);
    assert!(outcome.da1_seen);
}

#[test]
fn da1_with_attribute_4_is_sixel() {
    let outcome = parse_probe(b"\x1b[?62;4;22c");
    assert!(outcome.sixel);
    assert!(outcome.da1_seen);
}

#[test]
fn da1_attribute_44_is_not_sixel() {
    let outcome = parse_probe(b"\x1b[?62;40;44c");
    assert!(!outcome.sixel);
    assert!(outcome.da1_seen);
}

#[test]
fn da1_without_4_is_not_sixel() {
    let outcome = parse_probe(b"\x1b[?62;22c");
    assert!(!outcome.sixel);
    assert!(outcome.da1_seen);
}

#[test]
fn csi14t_reply_parses_pixel_size() {
    let outcome = parse_probe(b"\x1b[4;480;800t");
    assert_eq!(outcome.pixel_size, Some((800, 480)));
    assert!(!outcome.da1_seen);
}

#[test]
fn garbage_prefix_is_skipped() {
    let buf = b"junk\x07\x1b[Zmore\x1b_Gi=4242;OK\x1b\\\x1b[4;480;800t\x1b[?62;4c";
    let outcome = parse_probe(buf);
    assert!(outcome.kitty_ok);
    assert!(outcome.sixel);
    assert!(outcome.da1_seen);
    assert_eq!(outcome.pixel_size, Some((800, 480)));
}

#[test]
fn empty_buffer_parses_to_nothing() {
    let outcome = parse_probe(b"");
    assert!(!outcome.kitty_ok && !outcome.sixel && !outcome.da1_seen);
    assert_eq!(outcome.pixel_size, None);
}

#[test]
fn explicit_choice_wins_without_probe() {
    let contradicting = ProbeOutcome {
        kitty_ok: true,
        sixel: true,
        pixel_size: None,
        da1_seen: true,
    };
    for (choice, want) in [
        (ImageProtocolChoice::Kitty, GraphicsProtocol::Kitty),
        (ImageProtocolChoice::Sixel, GraphicsProtocol::Sixel),
        (ImageProtocolChoice::HalfBlock, GraphicsProtocol::HalfBlock),
    ] {
        assert_eq!(resolve(choice, None, None), want);
        assert_eq!(
            resolve(choice, Some(GraphicsProtocol::HalfBlock), Some(&contradicting)),
            want
        );
    }
}

#[test]
fn auto_uses_env_hit_first() {
    let probe = ProbeOutcome {
        kitty_ok: false,
        sixel: true,
        pixel_size: None,
        da1_seen: true,
    };
    assert_eq!(
        resolve(
            ImageProtocolChoice::Auto,
            Some(GraphicsProtocol::HalfBlock),
            Some(&probe)
        ),
        GraphicsProtocol::HalfBlock
    );
    assert_eq!(
        resolve(ImageProtocolChoice::Auto, Some(GraphicsProtocol::Kitty), None),
        GraphicsProtocol::Kitty
    );
}

#[test]
fn auto_probe_kitty_beats_sixel() {
    let probe = ProbeOutcome {
        kitty_ok: true,
        sixel: true,
        pixel_size: None,
        da1_seen: true,
    };
    assert_eq!(
        resolve(ImageProtocolChoice::Auto, None, Some(&probe)),
        GraphicsProtocol::Kitty
    );
}

#[test]
fn auto_probe_sixel_without_kitty() {
    let probe = ProbeOutcome {
        kitty_ok: false,
        sixel: true,
        pixel_size: None,
        da1_seen: true,
    };
    assert_eq!(
        resolve(ImageProtocolChoice::Auto, None, Some(&probe)),
        GraphicsProtocol::Sixel
    );
}

#[test]
fn auto_no_probe_data_is_half_block() {
    assert_eq!(
        resolve(ImageProtocolChoice::Auto, None, None),
        GraphicsProtocol::HalfBlock
    );
    let silent = ProbeOutcome::default();
    assert_eq!(
        resolve(ImageProtocolChoice::Auto, None, Some(&silent)),
        GraphicsProtocol::HalfBlock
    );
}

#[test]
fn cell_geometry_from_winsize_divides() {
    let geo = cell_geometry_from_winsize(100, 50, 800, 1000).unwrap();
    assert_eq!(geo.cell_w, 8);
    assert_eq!(geo.cell_h, 20);
}

#[test]
fn zero_winsize_pixels_yields_none() {
    assert_eq!(cell_geometry_from_winsize(100, 50, 0, 0), None);
    assert_eq!(cell_geometry_from_winsize(100, 50, 800, 0), None);
    assert_eq!(cell_geometry_from_winsize(100, 50, 0, 1000), None);
    assert_eq!(cell_geometry_from_winsize(0, 0, 800, 1000), None);
    assert_eq!(cell_geometry_from_winsize(0, 50, 800, 1000), None);
    assert_eq!(cell_geometry_from_winsize(100, 0, 800, 1000), None);
    assert_eq!(cell_geometry_from_winsize(1000, 50, 800, 1000), None);
}

#[test]
fn pixel_box_from_cell_span() {
    let geo = CellGeometry {
        cell_w: 8,
        cell_h: 20,
    };
    assert_eq!(pixel_box(30, 15, geo), (240, 300));
    assert_eq!(pixel_box(0, 15, geo), (0, 300));
}

#[test]
fn image_cell_span_from_raster() {
    assert_eq!(cells_for(240, 8), 30);
    assert_eq!(cells_for(241, 8), 31);
    assert_eq!(cells_for(1, 8), 1);
    assert_eq!(cells_for(0, 8), 0);
    assert_eq!(cells_for(240, 0), 0);
}

#[test]
fn protocol_names_match_config_values() {
    assert_eq!(GraphicsProtocol::Kitty.name(), "kitty");
    assert_eq!(GraphicsProtocol::Sixel.name(), "sixel");
    assert_eq!(GraphicsProtocol::HalfBlock.name(), "half-block");
}

#[test]
fn env_term_program_is_matched_without_regard_to_case() {
    let env = env_of(&[("TERM_PROGRAM", "WEZTERM")]);
    assert_eq!(detect_from_env(&env), Some(GraphicsProtocol::Kitty));
    let env = env_of(&[("TERM", "XTERM-KITTY")]);
    assert_eq!(detect_from_env(&env), None);
}

#[test]
fn probe_with_only_a_kitty_reply_has_no_da1() {
    let outcome = parse_probe(b"\x1b_Gi=4242;OK\x1b\\");
    assert!(outcome.kitty_ok);
    assert!(!outcome.da1_seen);
    assert!(!outcome.sixel);
}
