//! The tray icon, drawn with integer arithmetic only: a magnifying glass (a ring and
//! a handle) filled with a diagonal gradient, on a transparent background, as ARGB
//! pixels row by row; and the entries of the tray menu.

use vstd::prelude::*;
use crate::launcher::DesktopAction;

verus! {

/// Gradient start colour (top left).
pub const START_R: i32 = 42;
pub const START_G: i32 = 138;
pub const START_B: i32 = 163;
/// Gradient end colour (bottom right).
pub const END_R: i32 = 23;
pub const END_G: i32 = 107;
pub const END_B: i32 = 135;

/// The largest icon whose geometry stays within 32-bit arithmetic.
pub const MAX_ICON_SIZE: i32 = 16383;

/// Integer division rounding toward zero, as `/` on machine integers does.
pub open spec fn div_toward_zero(a: int, b: int) -> int {
    if (a >= 0) == (b > 0) || a == 0 {
        abs(a) / abs(b)
    } else {
        -(abs(a) / abs(b))
    }
}

pub open spec fn abs(a: int) -> int {
    if a < 0 {
        -a
    } else {
        a
    }
}

/// The unclamped interpolation: `start` weighted by `denominator - numerator`, `end`
/// by `numerator`, plus half the denominator, over the denominator.
pub open spec fn lerp_sum(start: int, end: int, numerator: int, denominator: int) -> int {
    start * (denominator - numerator) + end * numerator + div_toward_zero(denominator, 2)
}

/// Linear interpolation from `start` to `end` at `numerator / denominator`, rounded
/// half up for a positive denominator, and kept within a byte.
pub open spec fn lerp(start: int, end: int, numerator: int, denominator: int) -> int {
    let v = div_toward_zero(lerp_sum(start, end, numerator, denominator), denominator);
    if v < 0 {
        0
    } else if v > 255 {
        255
    } else {
        v
    }
}

/// The interpolation's arithmetic stays within 32-bit integers and divides by a
/// number other than zero.
pub open spec fn lerp_fits(start: int, end: int, numerator: int, denominator: int) -> bool {
    let span = denominator - numerator;
    let sum = start * span + end * numerator;
    &&& denominator != 0
    &&& i32::MIN <= span <= i32::MAX
    &&& i32::MIN <= start * span <= i32::MAX
    &&& i32::MIN <= end * numerator <= i32::MAX
    &&& i32::MIN <= sum <= i32::MAX
    &&& i32::MIN <= lerp_sum(start, end, numerator, denominator) <= i32::MAX
    &&& !(lerp_sum(start, end, numerator, denominator) == i32::MIN && denominator == -1)
}

pub fn lerp_channel(start: i32, end: i32, numerator: i32, denominator: i32) -> (c: u8)
    requires
        lerp_fits(start as int, end as int, numerator as int, denominator as int),
    ensures
        c == lerp(start as int, end as int, numerator as int, denominator as int),
{
    let span = denominator - numerator;
    let sum = start * span + end * numerator;
    let half = denominator / 2;
    assert(half == div_toward_zero(denominator as int, 2));
    let total = sum + half;
    assert(total == lerp_sum(start as int, end as int, numerator as int, denominator as int));
    let t = total as i64;
    let d = denominator as i64;
    let t_abs: i64 = if t < 0 {
        -t
    } else {
        t
    };
    let d_abs: i64 = if d < 0 {
        -d
    } else {
        d
    };
    let q: i64 = t_abs / d_abs;
    let value: i64 = if (t >= 0) == (d > 0) || t == 0 {
        q
    } else {
        -q
    };
    assert(value == div_toward_zero(total as int, denominator as int));
    let clamped = if value < 0 {
        0
    } else if value > 255 {
        255
    } else {
        value
    };
    clamped as u8
}

/// The channels of the icon's gradient stay within 32-bit arithmetic.
proof fn lemma_gradient_fits(start: int, end: int, numerator: int, denominator: int)
    requires
        0 <= start <= 255,
        0 <= end <= 255,
        0 <= numerator <= denominator,
        1 <= denominator <= 2 * MAX_ICON_SIZE,
    ensures
        lerp_fits(start, end, numerator, denominator),
{
    assert(0 <= start * (denominator - numerator) <= 255 * (2 * MAX_ICON_SIZE)) by (nonlinear_arith)
        requires
            0 <= start <= 255,
            0 <= numerator <= denominator,
            denominator <= 2 * MAX_ICON_SIZE,
    ;
    assert(0 <= end * numerator <= 255 * (2 * MAX_ICON_SIZE)) by (nonlinear_arith)
        requires
            0 <= end <= 255,
            0 <= numerator <= 2 * MAX_ICON_SIZE,
    ;
}

/// The geometry of an icon of side `size`.
pub open spec fn lens_center(size: int) -> int {
    size * 4 / 5
}

pub open spec fn lens_radius(size: int) -> int {
    size * 2 / 5
}

pub open spec fn lens_thickness(size: int) -> int {
    if size / 7 > 1 {
        size / 7
    } else {
        1
    }
}

/// The pixel at column `x`, row `y`, as `[A, R, G, B]`: opaque gradient on the ring and
/// the handle, transparent elsewhere.
pub open spec fn pixel(size: int, x: int, y: int) -> Seq<u8> {
    let c = lens_center(size);
    let r = lens_radius(size);
    let t = lens_thickness(size);
    let lx = 2 * x - c;
    let ly = 2 * y - c;
    let d = lx * lx + ly * ly;
    let outer = r + t;
    let inner = if r - t > 0 {
        r - t
    } else {
        0
    };
    let ring = d <= outer * outer && d >= inner * inner;
    let diff = if x >= y {
        x - y
    } else {
        y - x
    };
    let handle = x >= size / 2 && y >= size / 2 && x + y >= size * 6 / 5 && diff <= t;
    let den = if 2 * (size - 1) > 1 {
        2 * (size - 1)
    } else {
        1
    };
    let num = if x + y < 0 {
        0
    } else if x + y > den {
        den
    } else {
        x + y
    };
    if ring || handle {
        seq![
            255u8,
            lerp(START_R as int, END_R as int, num, den) as u8,
            lerp(START_G as int, END_G as int, num, den) as u8,
            lerp(START_B as int, END_B as int, num, den) as u8,
        ]
    } else {
        seq![0u8, 0u8, 0u8, 0u8]
    }
}

/// The first `x` pixels of row `y`.
pub open spec fn row_prefix(size: int, y: int, x: int) -> Seq<u8>
    decreases x,
{
    if x <= 0 {
        seq![]
    } else {
        row_prefix(size, y, x - 1) + pixel(size, x - 1, y)
    }
}

/// The first `y` rows.
pub open spec fn rows(size: int, y: int) -> Seq<u8>
    decreases y,
{
    if y <= 0 {
        seq![]
    } else {
        rows(size, y - 1) + row_prefix(size, y - 1, size)
    }
}

/// An icon: its side lengths and its ARGB pixels, row by row.
pub struct IconImage {
    pub width: i32,
    pub height: i32,
    pub data: Vec<u8>,
}

fn make_pixel(size: i32, x: i32, y: i32) -> (p: [u8; 4])
    requires
        0 <= size <= MAX_ICON_SIZE,
        0 <= x < size,
        0 <= y < size,
    ensures
        p@ == pixel(size as int, x as int, y as int),
{
    let c: i64 = (size as i64) * 4 / 5;
    let r: i64 = (size as i64) * 2 / 5;
    let t: i64 = if (size as i64) / 7 > 1 {
        (size as i64) / 7
    } else {
        1
    };
    let lx: i64 = 2 * (x as i64) - c;
    let ly: i64 = 2 * (y as i64) - c;
    assert(-40000 <= lx <= 40000 && -40000 <= ly <= 40000);
    assert(lx * lx <= 1600000000 && ly * ly <= 1600000000) by (nonlinear_arith)
        requires
            -40000 <= lx <= 40000,
            -40000 <= ly <= 40000,
    ;
    assert(lx * lx >= 0 && ly * ly >= 0) by (nonlinear_arith);
    let d: i64 = lx * lx + ly * ly;
    let outer: i64 = r + t;
    let inner: i64 = if r - t > 0 {
        r - t
    } else {
        0
    };
    assert(0 <= outer <= 20000 && 0 <= inner <= 20000);
    assert(outer * outer <= 400000000 && inner * inner <= 400000000) by (nonlinear_arith)
        requires
            0 <= outer <= 20000,
            0 <= inner <= 20000,
    ;
    let ring = d <= outer * outer && d >= inner * inner;
    let diff: i64 = if x >= y {
        (x - y) as i64
    } else {
        (y - x) as i64
    };
    let handle = (x as i64) >= (size as i64) / 2 && (y as i64) >= (size as i64) / 2 && (x as i64) + (y as i64)
        >= (size as i64) * 6 / 5 && diff <= t;
    let den: i32 = if 2 * (size - 1) > 1 {
        2 * (size - 1)
    } else {
        1
    };
    let num: i32 = if x + y < 0 {
        0
    } else if x + y > den {
        den
    } else {
        x + y
    };
    proof {
        lemma_gradient_fits(START_R as int, END_R as int, num as int, den as int);
        lemma_gradient_fits(START_G as int, END_G as int, num as int, den as int);
        lemma_gradient_fits(START_B as int, END_B as int, num as int, den as int);
    }
    if ring || handle {
        [
            255u8,
            lerp_channel(START_R, END_R, num, den),
            lerp_channel(START_G, END_G, num, den),
            lerp_channel(START_B, END_B, num, den),
        ]
    } else {
        [0u8, 0u8, 0u8, 0u8]
    }
}

/// The tray icon of side `size`.
pub fn make_icon(size: i32) -> (icon: IconImage)
    requires
        0 <= size <= MAX_ICON_SIZE,
    ensures
        icon.width == size,
        icon.height == size,
        icon.data@ == rows(size as int, size as int),
{
    let mut data: Vec<u8> = Vec::new();
    let mut y: i32 = 0;
    while y < size
        invariant
            0 <= size <= MAX_ICON_SIZE,
            0 <= y <= size,
            data@ == rows(size as int, y as int),
        decreases size - y,
    {
        let ghost before = data@;
        let mut x: i32 = 0;
        while x < size
            invariant
                0 <= size <= MAX_ICON_SIZE,
                0 <= y < size,
                0 <= x <= size,
                data@ == before + row_prefix(size as int, y as int, x as int),
            decreases size - x,
        {
            let p = make_pixel(size, x, y);
            let ghost mid = data@;
            data.push(p[0]);
            data.push(p[1]);
            data.push(p[2]);
            data.push(p[3]);
            assert(data@ =~= mid + p@);
            assert(before + row_prefix(size as int, y as int, x + 1) =~= before + row_prefix(
                size as int,
                y as int,
                x as int,
            ) + pixel(size as int, x as int, y as int));
            x += 1;
        }
        y += 1;
    }
    IconImage { width: size, height: size, data }
}

// ---------------------------------------------------------------------------
// The tray menu
// ---------------------------------------------------------------------------

/// One entry of the tray menu: a separator, or a labelled item (with an optional icon
/// name) and the desktop action it sends.
pub enum MenuEntry {
    Separator,
    Item { label: &'static str, icon: Option<&'static str>, action: DesktopAction },
}

/// The tray menu: show, hide, settings, a separator, leave the launcher, quit all.
pub fn tray_menu() -> (entries: Vec<MenuEntry>)
    ensures
        entries@.len() == 6,
        entries@[0] matches MenuEntry::Item { action, .. } && action == DesktopAction::Show,
        entries@[1] matches MenuEntry::Item { action, .. } && action == DesktopAction::Hide,
        entries@[2] matches MenuEntry::Item { action, .. } && action == DesktopAction::Settings,
        entries@[3] is Separator,
        entries@[4] matches MenuEntry::Item { action, .. } && action == DesktopAction::ExitUi,
        entries@[5] matches MenuEntry::Item { action, .. } && action == DesktopAction::QuitAll,
{
    vec![
        MenuEntry::Item { label: "显示如意寻", icon: Some("system-search"), action: DesktopAction::Show },
        MenuEntry::Item { label: "隐藏搜索窗口", icon: None, action: DesktopAction::Hide },
        MenuEntry::Item { label: "设置…", icon: Some("preferences-system"), action: DesktopAction::Settings },
        MenuEntry::Separator,
        MenuEntry::Item { label: "退出界面（保留后台索引）", icon: None, action: DesktopAction::ExitUi },
        MenuEntry::Item { label: "完全退出如意寻", icon: Some("application-exit"), action: DesktopAction::QuitAll },
    ]
}

/// The tray's primary click shows the launcher; the secondary click toggles it.
pub fn tray_click_action(primary: bool) -> (action: DesktopAction)
    ensures
        action == (if primary {
            DesktopAction::Show
        } else {
            DesktopAction::Toggle
        }),
{
    if primary {
        DesktopAction::Show
    } else {
        DesktopAction::Toggle
    }
}

} // verus!
