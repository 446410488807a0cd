use kmflow::input::Backend;
use kmflow::proto::{Double, Edge, ScreenInfo, ScreenPosition};
use kmflow::screen::{
    detect_screen_from_drm, dpi_texts, first_probe, is_output, listed_scale, next_probe,
    override_scale, parse_cosmic_randr, parse_wlr_randr, screen_info, strip_escapes, x11_scale,
    DrmOutput, Probe, ProbeResult,
};

fn double(v: f64) -> Double {
    Double { bits: v.to_bits() }
}

fn screen(width: u32, height: u32, scale: f64) -> ScreenInfo {
    ScreenInfo {
        width,
        height,
        scale_factor: double(scale),
        position: ScreenPosition { edge: Edge::Right, monitor_id: 0 },
    }
}

fn output(name: &str, status: &str, modes: &str) -> DrmOutput {
    DrmOutput { name: name.to_string(), status: status.to_string(), modes: modes.to_string() }
}

#[test]
fn colours_are_stripped() {
    let strip = |s: &str| -> String {
        let c: Vec<char> = s.chars().collect();
        strip_escapes(&c).into_iter().collect()
    };
    assert_eq!(strip("\u{1b}[1;32mgreen\u{1b}[0m text"), "green text");
    assert_eq!(strip("plain"), "plain");
    assert_eq!(strip("never \u{1b}[12 ends"), "never ");
    assert_eq!(strip("\u{1b}m"), "");
}

#[test]
fn cosmic_listings_are_read() {
    let text = "\u{1b}[1mDP-1\u{1b}[0m (enabled)\n  Scale: \u{1b}[32m150%\u{1b}[0m\n  Modes:\n    \
                1280x720 @ 60.000 Hz\n    2560x1440 @ 60.000 Hz (current) (preferred)\n";
    let l = parse_cosmic_randr(text).unwrap();
    assert_eq!((l.width, l.height), (2560, 1440));
    assert_eq!(l.scales, vec!["150"]);
}

#[test]
fn the_last_current_mode_counts() {
    let text = "Scale: 100%\n1920x1080 (current)\nScale: 200 %%\n3840x2160 (current)\n";
    let l = parse_cosmic_randr(text).unwrap();
    assert_eq!((l.width, l.height), (3840, 2160));
    assert_eq!(l.scales, vec!["100", "200 "]);
    let l = parse_cosmic_randr("800x600 (current)\nwide (current)\n").unwrap();
    assert_eq!((l.width, l.height), (800, 600));
}

#[test]
fn sizes_without_numbers_are_none() {
    assert_eq!(parse_cosmic_randr("1920xtall (current)"), None);
    assert_eq!(parse_cosmic_randr("0x1080 (current)"), None);
    assert_eq!(parse_cosmic_randr("1920x1080"), None);
    assert_eq!(parse_cosmic_randr(""), None);
    assert_eq!(parse_cosmic_randr("800x600 (current)\n1x99999999999 (current)"), None);
}

#[test]
fn wlr_listings_are_read() {
    let text = "eDP-1 \"Some panel\"\n  Enabled: yes\n  Modes:\n    1920x1080 px, 60.000000 Hz (preferred, current)\n  Scale: 1.250000\n";
    let l = parse_wlr_randr(text).unwrap();
    assert_eq!((l.width, l.height), (1920, 1080));
    assert_eq!(l.scales, vec!["1.250000"]);
    assert_eq!(parse_wlr_randr("nothing current here"), None);
    assert_eq!(parse_wlr_randr(""), None);
}

#[test]
fn the_last_number_is_the_listed_scale() {
    assert_eq!(listed_scale(&[]), double(1.0));
    assert_eq!(listed_scale(&[None]), double(1.0));
    assert_eq!(listed_scale(&[Some(double(1.5)), None]), double(1.5));
    assert_eq!(listed_scale(&[Some(double(1.5)), Some(double(2.0))]), double(2.0));
}

#[test]
fn the_first_number_is_the_scale_of_x11() {
    assert_eq!(x11_scale(None, None, &[]), double(1.0));
    assert_eq!(x11_scale(Some(double(2.0)), Some(double(3.0)), &[]), double(2.0));
    assert_eq!(x11_scale(None, Some(double(3.0)), &[Some(double(4.0))]), double(3.0));
    assert_eq!(
        x11_scale(None, None, &[None, Some(double(4.0)), Some(double(5.0))]),
        double(4.0)
    );
}

#[test]
fn resolutions_are_picked_out_of_the_resources() {
    let text = "Xcursor.size:\t24\nXft.dpi:\t144\n Xft.dpi: 1\nXft.dpi:  96 \n";
    assert_eq!(dpi_texts(text), vec!["144", "96"]);
    assert!(dpi_texts("").is_empty());
}

#[test]
fn outputs_are_told_by_name() {
    for name in ["card0-HDMI-A-1", "card1-DP-2", "card0-eDP-1"] {
        assert!(is_output(name));
    }
    for name in ["card0", "card0-VGA-1", "version", "dp"] {
        assert!(!is_output(name));
    }
}

#[test]
fn the_first_connected_output_counts() {
    let outputs = [
        output("card0-VGA-1", "connected\n", "640x480\n"),
        output("card0-DP-1", "disconnected\n", "800x600\n"),
        output("card0-DP-2", " Connected\n", "0x0\n1024x768\n"),
        output("card0-HDMI-A-1", "CONNECTED\n", "1920x1200\n1280x800\n"),
        output("card0-eDP-1", "connected", "1366x768"),
    ];
    assert_eq!(detect_screen_from_drm(&outputs), Some(screen(1920, 1200, 1.0)));
    assert_eq!(detect_screen_from_drm(&outputs[..3]), None);
    assert_eq!(detect_screen_from_drm(&outputs[4..]), Some(screen(1366, 768, 1.0)));
    assert_eq!(detect_screen_from_drm(&[output("DP", "connected", "")]), None);
    assert_eq!(detect_screen_from_drm(&[output("DP", "connected", "interlaced")]), None);
}

#[test]
fn the_tools_of_the_compositor_come_first() {
    assert_eq!(first_probe(), Probe::Cosmic);
    let x = Backend::X11;
    let e = Backend::Evdev;
    let s = screen(800, 600, 2.0);
    let none = ProbeResult::Nothing;
    let missing = ProbeResult::Unavailable;
    assert_eq!(next_probe(x, Probe::Cosmic, ProbeResult::Screen(s)), Probe::Found(s));
    assert_eq!(next_probe(x, Probe::Cosmic, missing), Probe::Wlr);
    assert_eq!(next_probe(x, Probe::Cosmic, none), Probe::X11);
    assert_eq!(next_probe(e, Probe::Cosmic, none), Probe::Drm);
    assert_eq!(next_probe(x, Probe::Wlr, missing), Probe::X11);
    assert_eq!(next_probe(e, Probe::Wlr, none), Probe::Drm);
    assert_eq!(next_probe(x, Probe::X11, missing), Probe::Drm);
    assert_eq!(next_probe(e, Probe::Drm, ProbeResult::Screen(s)), Probe::Found(s));
    assert_eq!(next_probe(e, Probe::Drm, none), Probe::Found(screen(1920, 1080, 1.0)));
    assert_eq!(next_probe(e, Probe::Found(s), none), Probe::Found(s));
}

#[test]
fn probing_comes_to_an_end() {
    for backend in [Backend::X11, Backend::Evdev] {
        let mut probe = first_probe();
        for _ in 0..4 {
            probe = next_probe(backend, probe, ProbeResult::Unavailable);
        }
        assert_eq!(probe, Probe::Found(screen(1920, 1080, 1.0)));
    }
}

#[test]
fn a_scale_of_the_user_counts() {
    let physical = screen(3840, 2160, 1.0);
    let logical = screen(1920, 1080, 2.0);
    assert_eq!(override_scale(physical, None, (1, 1)), physical);
    assert_eq!(override_scale(physical, Some(double(2.0)), (1920, 1080)), logical);
    assert_eq!(override_scale(logical, Some(double(3.0)), (1, 1)), screen(1920, 1080, 3.0));
    for s in [1.0, 0.5, -2.0, f64::NEG_INFINITY] {
        assert_eq!(override_scale(physical, Some(double(s)), (1, 1)), screen(3840, 2160, s));
    }
    let nan = override_scale(physical, Some(double(f64::NAN)), (1, 1));
    assert_eq!((nan.width, nan.height), (3840, 2160));
    let inf = override_scale(physical, Some(double(f64::INFINITY)), (0, 0));
    assert_eq!((inf.width, inf.height), (0, 0));
    assert_eq!(screen_info(7, 8, double(1.5)), screen(7, 8, 1.5));
}
