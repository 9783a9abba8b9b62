use ruyiseek::launcher::DesktopAction;
use ruyiseek::tray::{lerp_channel, make_icon, tray_click_action, tray_menu, MenuEntry};

#[test]
fn generated_icon_has_argb_pixels_and_expected_colors() {
    let icon = make_icon(16);
    assert_eq!(icon.width, 16);
    assert_eq!(icon.height, 16);
    assert_eq!(icon.data.len(), 16 * 16 * 4);

    assert!(icon.data.chunks_exact(4).any(|pixel| pixel == [0, 0, 0, 0]));

    let pixels: Vec<&[u8]> = icon.data.chunks_exact(4).collect();
    let mut unique: std::collections::BTreeMap<[u8; 4], usize> = std::collections::BTreeMap::new();
    for p in &pixels {
        let key = [p[0], p[1], p[2], p[3]];
        *unique.entry(key).or_insert(0) += 1;
    }
    let bright_count = unique
        .iter()
        .filter(|(p, _)| p[0] == 255 && p[1] >= 36 && p[1] <= 42 && p[2] >= 128 && p[2] <= 138)
        .map(|(_, c)| *c)
        .sum::<usize>();
    let dark_count = unique
        .iter()
        .filter(|(p, _)| p[0] == 255 && p[1] <= 26 && p[2] <= 110)
        .map(|(_, c)| *c)
        .sum::<usize>();
    assert!(bright_count > 0, "icon should contain bright gradient pixels near #2a8aa3");
    assert!(dark_count > 0, "icon should contain dark gradient pixels near #176b87");

    assert!(!pixels.iter().any(|p| *p == [255, 255, 255, 255]));
}

#[test]
fn interpolation_rounds_half_up_between_endpoints() {
    assert_eq!(lerp_channel(42, 23, 0, 30), 42);
    assert_eq!(lerp_channel(42, 23, 30, 30), 23);
    // (42 * 15 + 23 * 15 + 15) / 30 = 990 / 30 = 33
    assert_eq!(lerp_channel(42, 23, 15, 30), 33);
    assert_eq!(lerp_channel(0, 255, 1, 2), 128);
    // Out-of-range inputs are clamped into a byte, with division toward zero.
    assert_eq!(lerp_channel(0, 255, -10, 10), 0);
    assert_eq!(lerp_channel(300, 0, 0, 1), 255);
    assert_eq!(lerp_channel(10, 20, 1, -2), 5);
}

#[test]
fn icon_sizes_and_corners() {
    for size in [16, 22, 32] {
        let icon = make_icon(size);
        let side = usize::try_from(size).expect("positive size");
        assert_eq!(icon.data.len(), side * side * 4);
        // The top-left corner lies outside the lens.
        assert_eq!(&icon.data[0..4], &[0, 0, 0, 0]);
    }
    assert!(make_icon(0).data.is_empty());
}

#[test]
fn tray_menu_sends_desktop_actions() {
    let menu = tray_menu();
    let actions: Vec<Option<DesktopAction>> = menu
        .iter()
        .map(|entry| match entry {
            MenuEntry::Separator => None,
            MenuEntry::Item { action, .. } => Some(*action),
        })
        .collect();
    assert_eq!(
        actions,
        vec![
            Some(DesktopAction::Show),
            Some(DesktopAction::Hide),
            Some(DesktopAction::Settings),
            None,
            Some(DesktopAction::ExitUi),
            Some(DesktopAction::QuitAll),
        ]
    );
    assert_eq!(tray_click_action(true), DesktopAction::Show);
    assert_eq!(tray_click_action(false), DesktopAction::Toggle);
}
