//! The tray icon's configuration, texts and popup decisions.
use vstd::prelude::*;
use crate::json::{Json, JsonV, as_text, field, get_field, lookup, opt_view};
use crate::text::{
    ascii_lower, chars_contains, chars_of, contains_text, decimal, decimal_string,
    eq_ignore_ascii_case, eq_ignore_case, push_two_digits, str_eq, to_ascii_lower, zero_padded,
};

verus! {

/// `h:mm` or `h:mm:ss` for a duration, each part at least two digits.
pub open spec fn elapsed_text(secs: u64, show_seconds: bool) -> Seq<char> {
    let h = secs / 3600;
    let m = (secs % 3600) / 60;
    let s = secs % 60;
    if show_seconds {
        zero_padded(h as nat, 2) + ":"@ + zero_padded(m as nat, 2) + ":"@ + zero_padded(s as nat, 2)
    } else {
        zero_padded(h as nat, 2) + ":"@ + zero_padded(m as nat, 2)
    }
}

/// Formats a duration in seconds as hours, minutes and (optionally) seconds.
pub fn format_elapsed(secs: u64, show_seconds: bool) -> (r: String)
    ensures
        r@ == elapsed_text(secs, show_seconds),
{
    let h = secs / 3600;
    let m = (secs % 3600) / 60;
    let s = secs % 60;
    let mut out = String::new();
    push_two_digits(&mut out, h);
    out.append(":");
    push_two_digits(&mut out, m);
    if show_seconds {
        out.append(":");
        push_two_digits(&mut out, s);
    }
    assert(out@ =~= elapsed_text(secs, show_seconds));
    out
}

/// The text shown beside the tray icon for a label style.
pub open spec fn label_title(
    style: Seq<char>,
    project: Seq<char>,
    activity: Seq<char>,
    elapsed: u64,
    show_seconds: bool,
) -> Seq<char> {
    if style == "timer"@ {
        elapsed_text(elapsed, show_seconds)
    } else if style == "project"@ {
        project
    } else if style == "activity"@ {
        activity
    } else {
        Seq::empty()
    }
}

/// The text shown beside the tray icon: the timer, the project, the activity,
/// or nothing.
pub fn tray_label_title(
    label_style: &str,
    project: &str,
    activity: &str,
    elapsed_seconds: u64,
    show_seconds: bool,
) -> (r: String)
    ensures
        r@ == label_title(label_style@, project@, activity@, elapsed_seconds, show_seconds),
{
    if str_eq(label_style, "timer") {
        format_elapsed(elapsed_seconds, show_seconds)
    } else if str_eq(label_style, "project") {
        String::from_str(project)
    } else if str_eq(label_style, "activity") {
        String::from_str(activity)
    } else {
        String::new()
    }
}

/// The tooltip of a running timer: project, activity and elapsed time.
pub open spec fn running_tooltip(project: Seq<char>, activity: Seq<char>, secs: u64) -> Seq<char> {
    project + " — "@ + activity + " — "@ + elapsed_text(secs, true)
}

pub fn tray_tooltip(project: &str, activity: &str, secs: u64) -> (r: String)
    ensures
        r@ == running_tooltip(project@, activity@, secs),
{
    let mut out = String::from_str(project);
    out.append(" — ");
    out.append(activity);
    out.append(" — ");
    let elapsed = format_elapsed(secs, true);
    out.append(elapsed.as_str());
    out
}

/// The message for a text that is too long.
pub open spec fn too_long_message(name: Seq<char>, maximum: usize) -> Seq<char> {
    name + " exceeds "@ + decimal(maximum as nat) + " characters"@
}

/// Accepts texts of at most `maximum` characters.
pub fn validate_text(value: &str, maximum: usize, name: &str) -> (r: Result<(), String>)
    ensures
        r is Ok <==> value@.len() <= maximum,
        r matches Err(e) ==> e@ == too_long_message(name@, maximum),
{
    if value.unicode_len() > maximum {
        let mut e = String::from_str(name);
        e.append(" exceeds ");
        let digits = decimal_string(maximum as u64);
        e.append(digits.as_str());
        e.append(" characters");
        return Err(e);
    }
    Ok(())
}

/// Icon state codes: 0 idle, 1 running, 2 paused, 3 error.
pub open spec fn state_code_of(state: Seq<char>) -> u8 {
    if state == "running"@ {
        1
    } else if state == "paused"@ {
        2
    } else if state == "error"@ {
        3
    } else {
        0
    }
}

pub fn state_code(state: &str) -> (r: u8)
    ensures
        r == state_code_of(state@),
{
    if str_eq(state, "running") {
        1
    } else if str_eq(state, "paused") {
        2
    } else if str_eq(state, "error") {
        3
    } else {
        0
    }
}

/// Icon size codes: 0 small, 1 medium (also for anything unknown), 2 large, 3 extra large.
pub open spec fn size_code_of(size: Seq<char>) -> u8 {
    if size == "small"@ {
        0
    } else if size == "large"@ {
        2
    } else if size == "xlarge"@ {
        3
    } else {
        1
    }
}

pub fn size_code(size: &str) -> (r: u8)
    ensures
        r == size_code_of(size@),
{
    if str_eq(size, "small") {
        0
    } else if str_eq(size, "large") {
        2
    } else if str_eq(size, "xlarge") {
        3
    } else {
        1
    }
}

/// Icon shape codes: 0 dot (also for anything unknown), 1 ring, 2 square, 3 clock.
pub open spec fn shape_code_of(shape: Seq<char>) -> u8 {
    if shape == "ring"@ {
        1
    } else if shape == "square"@ {
        2
    } else if shape == "clock"@ {
        3
    } else {
        0
    }
}

pub fn shape_code(shape: &str) -> (r: u8)
    ensures
        r == shape_code_of(shape@),
{
    if str_eq(shape, "ring") {
        1
    } else if str_eq(shape, "square") {
        2
    } else if str_eq(shape, "clock") {
        3
    } else {
        0
    }
}

/// Popup placement codes: 0 bottom-right (also for anything unknown),
/// 1 bottom-left, 2 top-right, 3 top-left, 4 center.
pub open spec fn position_code_of(position: Seq<char>) -> u8 {
    if position == "bottom-left"@ {
        1
    } else if position == "top-right"@ {
        2
    } else if position == "top-left"@ {
        3
    } else if position == "center"@ {
        4
    } else {
        0
    }
}

pub fn position_code(position: &str) -> (r: u8)
    ensures
        r == position_code_of(position@),
{
    if str_eq(position, "bottom-left") {
        1
    } else if str_eq(position, "top-right") {
        2
    } else if str_eq(position, "top-left") {
        3
    } else if str_eq(position, "center") {
        4
    } else {
        0
    }
}

pub open spec fn hex_digit(c: char) -> Option<nat> {
    if '0' <= c <= '9' {
        Some((c as int - '0' as int) as nat)
    } else if 'a' <= c <= 'f' {
        Some((c as int - 'a' as int + 10) as nat)
    } else if 'A' <= c <= 'F' {
        Some((c as int - 'A' as int + 10) as nat)
    } else {
        None
    }
}

/// The value of a string of hexadecimal digits.
pub open spec fn hex_number(d: Seq<char>) -> Option<nat>
    decreases d.len(),
{
    if d.len() == 0 {
        Some(0)
    } else {
        match (hex_number(d.drop_last()), hex_digit(d.last())) {
            (Some(a), Some(b)) => Some(a * 16 + b),
            _ => None,
        }
    }
}

/// The text of a color once an optional leading `#` is taken off.
pub open spec fn color_digits(s: Seq<char>) -> Seq<char> {
    if s.len() > 0 && s[0] == '#' {
        s.drop_first()
    } else {
        s
    }
}

/// A `#RRGGBB` or `RRGGBB` color as `0x00RRGGBB`: exactly six hexadecimal
/// digits after an optional `#`, and their value; nothing for any other text.
pub open spec fn hex_color(s: Seq<char>) -> Option<u32> {
    let h = color_digits(s);
    if h.len() != 6 {
        None
    } else {
        match hex_number(h) {
            Some(v) => Some(v as u32),
            None => None,
        }
    }
}

proof fn lemma_hex_number_bound(d: Seq<char>)
    ensures
        hex_number(d) matches Some(v) ==> v < pow16(d.len()),
    decreases d.len(),
{
    if d.len() > 0 {
        lemma_hex_number_bound(d.drop_last());
        if let (Some(a), Some(b)) = (hex_number(d.drop_last()), hex_digit(d.last())) {
            assert(a * 16 + b < pow16(d.len())) by (nonlinear_arith)
                requires
                    a < pow16((d.len() - 1) as nat),
                    b < 16,
                    pow16(d.len()) == pow16((d.len() - 1) as nat) * 16,
            ;
        }
    }
}

pub open spec fn pow16(n: nat) -> nat
    decreases n,
{
    if n == 0 {
        1
    } else {
        pow16((n - 1) as nat) * 16
    }
}

fn hex_digit_exec(c: char) -> (r: Option<u32>)
    ensures
        match hex_digit(c) {
            Some(v) => r == Some(v as u32),
            None => r is None,
        },
{
    if '0' <= c && c <= '9' {
        Some((c as u32) - 48)
    } else if 'a' <= c && c <= 'f' {
        Some((c as u32) - 87)
    } else if 'A' <= c && c <= 'F' {
        Some((c as u32) - 55)
    } else {
        None
    }
}

/// Parses a `#RRGGBB` (or `RRGGBB`) color into `0x00RRGGBB`.
pub fn parse_hex_color(s: &str) -> (r: Option<u32>)
    ensures
        r == hex_color(s@),
        r matches Some(v) ==> v <= 0xff_ffff && color_digits(s@).len() == 6 && forall|
            i: int,
        |
            0 <= i < 6 ==> #[trigger] hex_digit(color_digits(s@)[i]) is Some,
{
    let cs = chars_of(s);
    let start: usize = if cs.len() > 0 && cs[0] == '#' {
        1
    } else {
        0
    };
    let ghost digits = color_digits(s@);
    assert(digits =~= cs@.skip(start as int));
    if cs.len() - start != 6 {
        return None;
    }
    let mut i: usize = start;
    let mut acc: u32 = 0;
    assert(digits.take(0) =~= Seq::<char>::empty());
    while i < cs.len()
        invariant
            cs@ == s@,
            start <= i <= cs@.len(),
            cs@.len() - start == 6,
            digits == cs@.skip(start as int),
            digits == color_digits(s@),
            hex_number(digits.take(i - start)) == Some(acc as nat),
            acc < pow16((i - start) as nat),
            forall|j: int| 0 <= j < i - start ==> #[trigger] hex_digit(digits[j]) is Some,
        decreases cs@.len() - i,
    {
        let d = match hex_digit_exec(cs[i]) {
            Some(d) => d,
            None => {
                proof {
                    assert(digits[i - start] == cs@[i as int]);
                    lemma_hex_prefix_fails(digits, (i - start) as nat);
                }
                return None;
            },
        };
        proof {
            assert(digits[i - start] == cs@[i as int]);
            assert(digits.take(i - start + 1).drop_last() =~= digits.take(i - start));
            assert(digits.take(i - start + 1).last() == cs@[i as int]);
            assert(pow16((i - start) as nat) <= pow16(5)) by {
                lemma_pow16_mono((i - start) as nat, 5);
            }
            assert(pow16(5) == 1048576) by {
                reveal_with_fuel(pow16, 6);
            }
            assert(acc * 16 + d < pow16((i - start + 1) as nat)) by (nonlinear_arith)
                requires
                    acc < pow16((i - start) as nat),
                    d < 16,
                    pow16((i - start + 1) as nat) == pow16((i - start) as nat) * 16,
            ;
        }
        acc = acc * 16 + d;
        i += 1;
    }
    assert(digits.take(digits.len() as int) =~= digits);
    assert(pow16(6) == 0x100_0000) by {
        reveal_with_fuel(pow16, 7);
    }
    Some(acc)
}

proof fn lemma_pow16_mono(a: nat, b: nat)
    requires
        a <= b,
    ensures
        pow16(a) <= pow16(b),
    decreases b,
{
    if a < b {
        lemma_pow16_mono(a, (b - 1) as nat);
    }
}

proof fn lemma_hex_prefix_fails(d: Seq<char>, k: nat)
    requires
        k < d.len(),
        hex_digit(d[k as int]) is None,
    ensures
        hex_number(d) is None,
    decreases d.len(),
{
    if k + 1 < d.len() {
        assert(d.drop_last()[k as int] == d[k as int]);
        lemma_hex_prefix_fails(d.drop_last(), k);
    }
}

/// The red, green and blue channels of `0x00RRGGBB`.
pub fn unpack_color(packed: u32) -> (r: (u8, u8, u8))
    ensures
        r.0 == (packed / 0x1_0000) % 0x100,
        r.1 == (packed / 0x100) % 0x100,
        r.2 == packed % 0x100,
{
    let red = ((packed / 0x1_0000) % 0x100) as u8;
    let green = ((packed / 0x100) % 0x100) as u8;
    let blue = (packed % 0x100) as u8;
    (red, green, blue)
}

/// The desktops whose tray hosts show AppIndicator icons only.
pub open spec fn needs_appindicator(desktop: Seq<char>) -> bool {
    ||| contains_text(desktop, "gnome"@)
    ||| contains_text(desktop, "ubuntu"@)
    ||| contains_text(desktop, "unity"@)
    ||| contains_text(desktop, "pantheon"@)
    ||| contains_text(desktop, "budgie"@)
    ||| contains_text(desktop, "sway"@)
}

/// Whether a (lower-case) desktop name is one that needs AppIndicator.
pub fn desktop_name_needs_appindicator(desktop: &str) -> (r: bool)
    ensures
        r == needs_appindicator(desktop@),
{
    let d = chars_of(desktop);
    chars_contains(&d, &chars_of("gnome")) || chars_contains(&d, &chars_of("ubuntu"))
        || chars_contains(&d, &chars_of("unity")) || chars_contains(&d, &chars_of("pantheon"))
        || chars_contains(&d, &chars_of("budgie")) || chars_contains(&d, &chars_of("sway"))
}

/// The first of two optional settings that is present, else empty.
pub open spec fn first_present(a: Option<Seq<char>>, b: Option<Seq<char>>) -> Seq<char> {
    match a {
        Some(x) => x,
        None => match b {
            Some(y) => y,
            None => Seq::empty(),
        },
    }
}

pub open spec fn opt_text(s: Option<String>) -> Option<Seq<char>> {
    match s {
        Some(t) => Some(t@),
        None => None,
    }
}

/// Whether the tray must use AppIndicator: `KIMAITRAY_TRAY_BACKEND` decides when
/// set; otherwise the desktop named by `XDG_CURRENT_DESKTOP` (or else
/// `XDG_SESSION_DESKTOP`), in lower case.
pub fn desktop_needs_appindicator(
    backend: Option<String>,
    current_desktop: Option<String>,
    session_desktop: Option<String>,
) -> (r: bool)
    ensures
        r == match opt_text(backend) {
            Some(b) => eq_ignore_case(b, "appindicator"@),
            None => needs_appindicator(
                ascii_lower(first_present(opt_text(current_desktop), opt_text(session_desktop))),
            ),
        },
{
    if let Some(b) = &backend {
        return eq_ignore_ascii_case(b.as_str(), "appindicator");
    }
    let desktop = match &current_desktop {
        Some(d) => String::from_str(d.as_str()),
        None => match &session_desktop {
            Some(d) => String::from_str(d.as_str()),
            None => String::new(),
        },
    };
    let lower = to_ascii_lower(desktop.as_str());
    let lower = crate::text::string_of(&lower);
    desktop_name_needs_appindicator(lower.as_str())
}

/// What to do with the popup after it lost focus.
#[derive(Clone, Copy, PartialEq, Eq, Structural, Debug)]
pub enum PopupBlurAction {
    KeepOpen,
    Wait,
    Hide,
}

/// A focused popup stays; one the user is still pressing, resizing, or resized
/// in the last 250 ms waits; otherwise it hides.
pub fn popup_blur_action(
    focused: bool,
    pointer_down: bool,
    resizing: bool,
    since_resize_ms: u64,
) -> (r: PopupBlurAction)
    ensures
        r == if focused {
            PopupBlurAction::KeepOpen
        } else if pointer_down || resizing || since_resize_ms < 250 {
            PopupBlurAction::Wait
        } else {
            PopupBlurAction::Hide
        },
{
    if focused {
        PopupBlurAction::KeepOpen
    } else if pointer_down || resizing || since_resize_ms < 250 {
        PopupBlurAction::Wait
    } else {
        PopupBlurAction::Hide
    }
}


/// The tray's configuration as the commands leave it. Codes: icon state
/// 0 idle, 1 running, 2 paused, 3 error; icon size 0 small, 1 medium, 2 large,
/// 3 extra large; icon shape 0 dot, 1 ring, 2 square, 3 clock; left click
/// 0 popup, 1 nothing; right click 0 menu, 1 popup; display 0 tray, 1 detached;
/// monitor mode 0 active monitor, 1 a specific one; monitor position as in
/// `position_code_of`. Colors are `0x00RRGGBB`, one per icon state.
#[derive(Clone, Copy, PartialEq, Eq, Structural, Debug)]
pub struct TrayConfig {
    pub icon_state: u8,
    pub icon_size: u8,
    pub icon_shape: u8,
    pub idle_color: u32,
    pub running_color: u32,
    pub paused_color: u32,
    pub error_color: u32,
    pub left_action: u8,
    pub right_action: u8,
    pub display_mode: u8,
    pub monitor_mode: u8,
    pub monitor_index: u8,
    pub monitor_position: u8,
    /// Linux only: the icon is an AppIndicator rather than a GTK status icon.
    pub appindicator: bool,
}

/// Every code is one that the commands can set.
pub open spec fn tray_config_valid(c: TrayConfig) -> bool {
    &&& c.icon_state <= 3
    &&& c.icon_size <= 3
    &&& c.icon_shape <= 3
    &&& c.idle_color <= 0xff_ffff
    &&& c.running_color <= 0xff_ffff
    &&& c.paused_color <= 0xff_ffff
    &&& c.error_color <= 0xff_ffff
    &&& c.left_action <= 1
    &&& c.right_action <= 1
    &&& c.display_mode <= 1
    &&& c.monitor_mode <= 1
    &&& c.monitor_position <= 4
}

/// The color for an icon state code (codes above 3 are errors).
pub open spec fn color_of(c: TrayConfig, state: u8) -> u32 {
    if state == 0 {
        c.idle_color
    } else if state == 1 {
        c.running_color
    } else if state == 2 {
        c.paused_color
    } else {
        c.error_color
    }
}

/// Each icon state is drawn in its own configured color, whatever the
/// configuration: "idle" in the idle color, "running" in the running color,
/// "paused" in the paused color and "error" in the error color; the states
/// are kept as the codes 0, 1, 2 and 3.
pub proof fn lemma_icon_states_draw_their_colors(c: TrayConfig)
    ensures
        state_code_of("idle"@) == 0 && color_of(c, state_code_of("idle"@)) == c.idle_color,
        state_code_of("running"@) == 1 && color_of(c, state_code_of("running"@)) == c.running_color,
        state_code_of("paused"@) == 2 && color_of(c, state_code_of("paused"@)) == c.paused_color,
        state_code_of("error"@) == 3 && color_of(c, state_code_of("error"@)) == c.error_color,
{
    reveal_strlit("idle");
    reveal_strlit("running");
    reveal_strlit("paused");
    reveal_strlit("error");
    assert("idle"@.len() == 4 && "running"@.len() == 7 && "paused"@.len() == 6 && "error"@.len()
        == 5);
}

/// How to draw the icon.
#[derive(Clone, Copy, PartialEq, Eq, Structural, Debug)]
pub struct IconRender {
    pub size: u8,
    pub shape: u8,
    pub color: u32,
}

/// Which mouse button clicked the tray icon.
#[derive(Clone, Copy, PartialEq, Eq, Structural, Debug)]
pub enum TrayButton {
    Left,
    Right,
    Other,
}

pub open spec fn code_if(b: bool) -> u8 {
    if b {
        1
    } else {
        0
    }
}

impl TrayConfig {
    /// The configuration before any setting is applied: an idle medium dot in
    /// the default colors, left click opens the popup, right click the menu,
    /// tray mode on the active monitor's bottom-right corner.
    pub fn new() -> (c: TrayConfig)
        ensures
            tray_config_valid(c),
            c == (TrayConfig {
                icon_state: 0,
                icon_size: 1,
                icon_shape: 0,
                idle_color: 0x9c_a3_af,
                running_color: 0x10_b9_81,
                paused_color: 0xf5_9e_0b,
                error_color: 0xef_44_44,
                left_action: 0,
                right_action: 0,
                display_mode: 0,
                monitor_mode: 0,
                monitor_index: 0,
                monitor_position: 0,
                appindicator: false,
            }),
    {
        TrayConfig {
            icon_state: 0,
            icon_size: 1,
            icon_shape: 0,
            idle_color: 0x9c_a3_af,
            running_color: 0x10_b9_81,
            paused_color: 0xf5_9e_0b,
            error_color: 0xef_44_44,
            left_action: 0,
            right_action: 0,
            display_mode: 0,
            monitor_mode: 0,
            monitor_index: 0,
            monitor_position: 0,
            appindicator: false,
        }
    }

    /// The color of an icon state code; codes above 3 take the error color.
    pub fn state_color(&self, state: u8) -> (r: u32)
        ensures
            r == color_of(*self, state),
    {
        if state == 0 {
            self.idle_color
        } else if state == 1 {
            self.running_color
        } else if state == 2 {
            self.paused_color
        } else {
            self.error_color
        }
    }

    /// Switches the icon to another state: how to draw it, and the
    /// configuration to keep once it is drawn.
    pub fn set_tray_icon(&self, state: &str) -> (r: Result<(IconRender, TrayConfig), String>)
        requires
            tray_config_valid(*self),
        ensures
            r is Ok <==> (state@ == "idle"@ || state@ == "running"@ || state@ == "paused"@
                || state@ == "error"@),
            r matches Err(e) ==> e@ == "Invalid tray icon state"@,
            r matches Ok((render, next)) ==> {
                let code = state_code_of(state@);
                &&& render == IconRender {
                    size: self.icon_size,
                    shape: self.icon_shape,
                    color: color_of(*self, code),
                }
                &&& next == TrayConfig { icon_state: code, ..*self }
                &&& tray_config_valid(next)
            },
    {
        if !(str_eq(state, "idle") || str_eq(state, "running") || str_eq(state, "paused") || str_eq(
            state,
            "error",
        )) {
            return Err(String::from_str("Invalid tray icon state"));
        }
        let code = state_code(state);
        let render = IconRender {
            size: self.icon_size,
            shape: self.icon_shape,
            color: self.state_color(code),
        };
        Ok((render, TrayConfig { icon_state: code, ..*self }))
    }

    /// Changes the icon's size.
    pub fn set_tray_icon_size(&self, size: &str) -> (r: Result<(IconRender, TrayConfig), String>)
        requires
            tray_config_valid(*self),
        ensures
            r is Ok <==> (size@ == "small"@ || size@ == "medium"@ || size@ == "large"@ || size@
                == "xlarge"@),
            r matches Err(e) ==> e@ == "Invalid tray icon size"@,
            r matches Ok((render, next)) ==> {
                let code = size_code_of(size@);
                &&& render == IconRender {
                    size: code,
                    shape: self.icon_shape,
                    color: color_of(*self, self.icon_state),
                }
                &&& next == TrayConfig { icon_size: code, ..*self }
                &&& tray_config_valid(next)
            },
    {
        if !(str_eq(size, "small") || str_eq(size, "medium") || str_eq(size, "large") || str_eq(
            size,
            "xlarge",
        )) {
            return Err(String::from_str("Invalid tray icon size"));
        }
        let code = size_code(size);
        let render = IconRender {
            size: code,
            shape: self.icon_shape,
            color: self.state_color(self.icon_state),
        };
        Ok((render, TrayConfig { icon_size: code, ..*self }))
    }

    /// Changes the icon's shape.
    pub fn set_tray_icon_shape(&self, shape: &str) -> (r: Result<(IconRender, TrayConfig), String>)
        requires
            tray_config_valid(*self),
        ensures
            r is Ok <==> (shape@ == "dot"@ || shape@ == "ring"@ || shape@ == "square"@ || shape@
                == "clock"@),
            r matches Err(e) ==> e@ == "Invalid tray icon shape"@,
            r matches Ok((render, next)) ==> {
                let code = shape_code_of(shape@);
                &&& render == IconRender {
                    size: self.icon_size,
                    shape: code,
                    color: color_of(*self, self.icon_state),
                }
                &&& next == TrayConfig { icon_shape: code, ..*self }
                &&& tray_config_valid(next)
            },
    {
        if !(str_eq(shape, "dot") || str_eq(shape, "ring") || str_eq(shape, "square") || str_eq(
            shape,
            "clock",
        )) {
            return Err(String::from_str("Invalid tray icon shape"));
        }
        let code = shape_code(shape);
        let render = IconRender {
            size: self.icon_size,
            shape: code,
            color: self.state_color(self.icon_state),
        };
        Ok((render, TrayConfig { icon_shape: code, ..*self }))
    }

    /// Changes the four state colors; the first color that does not parse is
    /// named in the error.
    pub fn set_tray_colors(&self, idle: &str, running: &str, paused: &str, error: &str) -> (r:
        Result<(IconRender, TrayConfig), String>)
        requires
            tray_config_valid(*self),
        ensures
            r is Ok <==> (hex_color(idle@) is Some && hex_color(running@) is Some && hex_color(
                paused@,
            ) is Some && hex_color(error@) is Some),
            r matches Err(e) ==> e@ == "Invalid tray color: "@ + (if hex_color(idle@) is None {
                idle@
            } else if hex_color(running@) is None {
                running@
            } else if hex_color(paused@) is None {
                paused@
            } else {
                error@
            }),
            r matches Ok((render, next)) ==> {
                &&& next == TrayConfig {
                    idle_color: hex_color(idle@)->0,
                    running_color: hex_color(running@)->0,
                    paused_color: hex_color(paused@)->0,
                    error_color: hex_color(error@)->0,
                    ..*self
                }
                &&& render == IconRender {
                    size: self.icon_size,
                    shape: self.icon_shape,
                    color: color_of(next, self.icon_state),
                }
                &&& tray_config_valid(next)
            },
    {
        let i = match parse_hex_color(idle) {
            Some(c) => c,
            None => return Err(crate::text::join2("Invalid tray color: ", idle)),
        };
        let r = match parse_hex_color(running) {
            Some(c) => c,
            None => return Err(crate::text::join2("Invalid tray color: ", running)),
        };
        let p = match parse_hex_color(paused) {
            Some(c) => c,
            None => return Err(crate::text::join2("Invalid tray color: ", paused)),
        };
        let e = match parse_hex_color(error) {
            Some(c) => c,
            None => return Err(crate::text::join2("Invalid tray color: ", error)),
        };
        proof {
            lemma_hex_color_bound(idle@);
            lemma_hex_color_bound(running@);
            lemma_hex_color_bound(paused@);
            lemma_hex_color_bound(error@);
        }
        let next = TrayConfig {
            idle_color: i,
            running_color: r,
            paused_color: p,
            error_color: e,
            ..*self
        };
        let render = IconRender {
            size: self.icon_size,
            shape: self.icon_shape,
            color: next.state_color(self.icon_state),
        };
        Ok((render, next))
    }

    /// What the left and right mouse buttons do.
    pub fn set_tray_click_actions(&self, left_action: &str, right_action: &str) -> (r: Result<TrayConfig, String>)
        requires
            tray_config_valid(*self),
        ensures
            r is Ok <==> ((left_action@ == "popup"@ || left_action@ == "nothing"@) && (
            right_action@ == "menu"@ || right_action@ == "popup"@)),
            r matches Err(e) ==> e@ == if !(left_action@ == "popup"@ || left_action@
                == "nothing"@) {
                "Invalid left-click action"@
            } else {
                "Invalid right-click action"@
            },
            r matches Ok(next) ==> next == (TrayConfig {
                left_action: code_if(left_action@ == "nothing"@),
                right_action: code_if(right_action@ == "popup"@),
                ..*self
            }) && tray_config_valid(next),
    {
        if !(str_eq(left_action, "popup") || str_eq(left_action, "nothing")) {
            return Err(String::from_str("Invalid left-click action"));
        }
        if !(str_eq(right_action, "menu") || str_eq(right_action, "popup")) {
            return Err(String::from_str("Invalid right-click action"));
        }
        let left: u8 = if str_eq(left_action, "nothing") {
            1
        } else {
            0
        };
        let right: u8 = if str_eq(right_action, "popup") {
            1
        } else {
            0
        };
        Ok(TrayConfig { left_action: left, right_action: right, ..*self })
    }

    /// Tray or detached window mode.
    pub fn set_display_mode(&self, mode: &str) -> (next: TrayConfig)
        requires
            tray_config_valid(*self),
        ensures
            next == (TrayConfig { display_mode: code_if(mode@ == "detached"@), ..*self }),
            tray_config_valid(next),
    {
        let detached: u8 = if str_eq(mode, "detached") {
            1
        } else {
            0
        };
        TrayConfig { display_mode: detached, ..*self }
    }

    /// Where the popup opens when it is not placed at the tray icon.
    pub fn set_popup_monitor(&self, mode: &str, index: u8, position: &str) -> (next: TrayConfig)
        requires
            tray_config_valid(*self),
        ensures
            next == (TrayConfig {
                monitor_mode: code_if(mode@ == "specific"@),
                monitor_index: index,
                monitor_position: position_code_of(position@),
                ..*self
            }),
            tray_config_valid(next),
    {
        let specific: u8 = if str_eq(mode, "specific") {
            1
        } else {
            0
        };
        TrayConfig {
            monitor_mode: specific,
            monitor_index: index,
            monitor_position: position_code(position),
            ..*self
        }
    }

    /// Whether the popup is a free-standing window.
    pub fn is_detached(&self) -> (r: bool)
        ensures
            r == (self.display_mode == 1),
    {
        self.display_mode == 1
    }

    /// The name of the Linux tray backend in use.
    pub fn platform_tray_backend(&self) -> (r: &'static str)
        ensures
            r@ == if self.appindicator {
                "appindicator"@
            } else {
                "legacy-gtk"@
            },
    {
        if self.appindicator {
            "appindicator"
        } else {
            "legacy-gtk"
        }
    }

    /// Whether a click with `button` toggles the popup.
    pub fn click_toggles(&self, button: TrayButton) -> (r: bool)
        ensures
            r == match button {
                TrayButton::Left => self.left_action == 0,
                TrayButton::Right => self.right_action == 1,
                TrayButton::Other => false,
            },
    {
        match button {
            TrayButton::Left => self.left_action == 0,
            TrayButton::Right => self.right_action == 1,
            TrayButton::Other => false,
        }
    }
}

proof fn lemma_hex_color_bound(s: Seq<char>)
    ensures
        hex_color(s) matches Some(v) ==> v <= 0xff_ffff,
{
    let digits = color_digits(s);
    if digits.len() == 6 {
        lemma_hex_number_bound(digits);
        assert(pow16(6) == 0x100_0000) by {
            reveal_with_fuel(pow16, 7);
        }
    }
}


/// The text of a member, or `default` when it is missing or not text.
pub open spec fn text_or(j: Option<JsonV>, default: Seq<char>) -> Seq<char> {
    match as_text(j) {
        Some(t) => t,
        None => default,
    }
}

/// A color from the `trayColors` object, or `old` when it is missing or invalid.
pub open spec fn color_or(colors: Option<JsonV>, key: Seq<char>, old: u32) -> u32 {
    match colors {
        Some(c) => match as_text(field(c, key)) {
            Some(t) => match hex_color(t) {
                Some(v) => v,
                None => old,
            },
            None => old,
        },
        None => old,
    }
}

/// The tray configuration after reading the persisted settings document: the
/// click actions, display mode, monitor choice, icon size, shape and colors.
/// Only an object is read; anything else leaves the configuration as it is.
pub open spec fn settings_applied(c: TrayConfig, s: JsonV) -> TrayConfig {
    if s is Object {
        let colors = match field(s, "trayColors"@) {
            Some(JsonV::Object(m)) => Some(JsonV::Object(m)),
            _ => None,
        };
        TrayConfig {
            left_action: code_if(text_or(field(s, "trayLeftClickAction"@), "popup"@) == "nothing"@),
            right_action: code_if(text_or(field(s, "trayRightClickAction"@), "menu"@) == "popup"@),
            display_mode: code_if(text_or(field(s, "displayMode"@), "tray"@) == "detached"@),
            monitor_mode: code_if(
                text_or(field(s, "popupMonitorMode"@), "active"@) == "specific"@,
            ),
            monitor_index: match crate::json::as_u64(field(s, "popupMonitorIndex"@)) {
                Some(n) => n as u8,
                None => 0,
            },
            monitor_position: position_code_of(
                text_or(field(s, "popupMonitorPosition"@), "bottom-right"@),
            ),
            icon_size: size_code_of(text_or(field(s, "trayIconSize"@), "medium"@)),
            icon_shape: shape_code_of(text_or(field(s, "trayIconShape"@), "dot"@)),
            idle_color: color_or(colors, "idle"@, c.idle_color),
            running_color: color_or(colors, "running"@, c.running_color),
            paused_color: color_or(colors, "paused"@, c.paused_color),
            error_color: color_or(colors, "error"@, c.error_color),
            ..c
        }
    } else {
        c
    }
}

fn text_of<'a>(j: Option<&'a Json>) -> (r: Option<&'a String>)
    ensures
        match r {
            Some(t) => as_text(opt_view(j)) == Some(t@),
            None => as_text(opt_view(j)) is None,
        },
{
    match j {
        Some(Json::Text(t)) => Some(t),
        _ => None,
    }
}

fn text_or_exec(j: Option<&Json>, default: &str) -> (r: String)
    ensures
        r@ == text_or(opt_view(j), default@),
{
    match text_of(j) {
        Some(t) => t.clone(),
        None => String::from_str(default),
    }
}

fn color_or_exec(colors: Option<&Json>, key: &str, old: u32) -> (r: u32)
    requires
        colors matches Some(c) ==> c@ is Object,
    ensures
        r == color_or(opt_view(colors), key@, old),
{
    match colors {
        Some(c) => match text_of(get_field(c, key)) {
            Some(t) => match parse_hex_color(t.as_str()) {
                Some(v) => v,
                None => old,
            },
            None => old,
        },
        None => old,
    }
}

impl TrayConfig {
    /// Reads the persisted tray settings.
    pub fn apply_settings(&self, settings: &Json) -> (next: TrayConfig)
        requires
            tray_config_valid(*self),
        ensures
            next == settings_applied(*self, settings@),
            tray_config_valid(next),
    {
        if !matches!(settings, Json::Object(_)) {
            return *self;
        }
        let left = text_or_exec(get_field(settings, "trayLeftClickAction"), "popup");
        let right = text_or_exec(get_field(settings, "trayRightClickAction"), "menu");
        let display = text_or_exec(get_field(settings, "displayMode"), "tray");
        let mon_mode = text_or_exec(get_field(settings, "popupMonitorMode"), "active");
        let mon_index: u8 = match get_field(settings, "popupMonitorIndex") {
            Some(Json::Number(crate::json::JsonNumber::PosInt(n))) => *n as u8,
            _ => 0,
        };
        let mon_pos = text_or_exec(get_field(settings, "popupMonitorPosition"), "bottom-right");
        let size = text_or_exec(get_field(settings, "trayIconSize"), "medium");
        let shape = text_or_exec(get_field(settings, "trayIconShape"), "dot");
        let colors = match get_field(settings, "trayColors") {
            Some(c) => match c {
                Json::Object(_) => Some(c),
                _ => None,
            },
            None => None,
        };
        let idle = color_or_exec(colors, "idle", self.idle_color);
        let running = color_or_exec(colors, "running", self.running_color);
        let paused = color_or_exec(colors, "paused", self.paused_color);
        let error = color_or_exec(colors, "error", self.error_color);
        proof {
            lemma_hex_color_bound_all();
        }
        TrayConfig {
            left_action: if str_eq(left.as_str(), "nothing") {
                1
            } else {
                0
            },
            right_action: if str_eq(right.as_str(), "popup") {
                1
            } else {
                0
            },
            display_mode: if str_eq(display.as_str(), "detached") {
                1
            } else {
                0
            },
            monitor_mode: if str_eq(mon_mode.as_str(), "specific") {
                1
            } else {
                0
            },
            monitor_index: mon_index,
            monitor_position: position_code(mon_pos.as_str()),
            icon_size: size_code(size.as_str()),
            icon_shape: shape_code(shape.as_str()),
            idle_color: idle,
            running_color: running,
            paused_color: paused,
            error_color: error,
            ..*self
        }
    }
}

proof fn lemma_hex_color_bound_all()
    ensures
        forall|s: Seq<char>| #[trigger] hex_color(s) is Some ==> hex_color(s)->0 <= 0xff_ffff,
{
    assert forall|s: Seq<char>| #[trigger] hex_color(s) is Some implies hex_color(s)->0 <= 0xff_ffff by {
        lemma_hex_color_bound(s);
    }
}


/// What a toggle of the popup does.
#[derive(Clone, Copy, PartialEq, Eq, Structural, Debug)]
pub enum PopupToggle {
    /// Hide the visible popup.
    Hide,
    /// Restore and focus the visible detached window.
    Focus,
    /// Show the hidden popup (see `show_popup_window`).
    Show,
}

/// A visible detached window is brought forward; a visible popup hides; a hidden one shows.
pub fn toggle_popup_window(visible: bool, detached: bool) -> (r: PopupToggle)
    ensures
        r == if visible {
            if detached {
                PopupToggle::Focus
            } else {
                PopupToggle::Hide
            }
        } else {
            PopupToggle::Show
        },
{
    if visible {
        if detached {
            PopupToggle::Focus
        } else {
            PopupToggle::Hide
        }
    } else {
        PopupToggle::Show
    }
}

/// How to bring the popup up.
#[derive(Clone, Copy, PartialEq, Eq, Structural, Debug)]
pub enum PopupShow {
    /// It is already visible: restore and focus it.
    Focus,
    /// Show the detached window where it is.
    ShowDetached,
    /// Place it on a chosen monitor's corner or center, then show it.
    ShowOnMonitor { index: u8, position: u8 },
    /// Place it at the tray icon, then show it.
    ShowAtTray,
}

pub fn show_popup_window(config: &TrayConfig, visible: bool) -> (r: PopupShow)
    ensures
        r == if visible {
            PopupShow::Focus
        } else if config.display_mode == 1 {
            PopupShow::ShowDetached
        } else if config.monitor_mode == 1 {
            PopupShow::ShowOnMonitor {
                index: config.monitor_index,
                position: config.monitor_position,
            }
        } else {
            PopupShow::ShowAtTray
        },
{
    if visible {
        PopupShow::Focus
    } else if config.is_detached() {
        PopupShow::ShowDetached
    } else if config.monitor_mode == 1 {
        PopupShow::ShowOnMonitor { index: config.monitor_index, position: config.monitor_position }
    } else {
        PopupShow::ShowAtTray
    }
}

/// Whether the popup was hidden less than 300 ms ago: the click that hid it
/// must not reopen it.
pub fn popup_recently_hidden(now_ms: u64, last_hide_ms: u64) -> (r: bool)
    ensures
        r == (now_ms >= last_hide_ms && now_ms - last_hide_ms < 300 || now_ms < last_hide_ms),
{
    now_ms.saturating_sub(last_hide_ms) < 300
}

/// What a click on the tray icon does on macOS and Windows, where the click's
/// own position places the popup.
#[derive(Clone, Copy, PartialEq, Eq, Structural, Debug)]
pub enum TrayClick {
    Ignore,
    Focus,
    Hide,
    ShowDetached,
    ShowAtClick,
}

pub fn tray_click(
    config: &TrayConfig,
    button: TrayButton,
    visible: bool,
    now_ms: u64,
    last_hide_ms: u64,
) -> (r: TrayClick)
    ensures
        r == if !match button {
            TrayButton::Left => config.left_action == 0,
            TrayButton::Right => config.right_action == 1,
            TrayButton::Other => false,
        } {
            TrayClick::Ignore
        } else if visible {
            if config.display_mode == 1 {
                TrayClick::Focus
            } else {
                TrayClick::Hide
            }
        } else if now_ms >= last_hide_ms && now_ms - last_hide_ms < 300 || now_ms < last_hide_ms {
            TrayClick::Ignore
        } else if config.display_mode == 1 {
            TrayClick::ShowDetached
        } else {
            TrayClick::ShowAtClick
        },
{
    if !config.click_toggles(button) {
        TrayClick::Ignore
    } else if visible {
        if config.is_detached() {
            TrayClick::Focus
        } else {
            TrayClick::Hide
        }
    } else if popup_recently_hidden(now_ms, last_hide_ms) {
        TrayClick::Ignore
    } else if config.is_detached() {
        TrayClick::ShowDetached
    } else {
        TrayClick::ShowAtClick
    }
}

/// Whether a click on the Linux tray icon (or the legacy icon's activation)
/// toggles the popup: the button is set to do so and the popup was not just hidden.
pub fn linux_click_toggles(config: &TrayConfig, button: TrayButton, now_ms: u64, last_hide_ms: u64) -> (r: bool)
    ensures
        r == (match button {
            TrayButton::Left => config.left_action == 0,
            TrayButton::Right => config.right_action == 1,
            TrayButton::Other => false,
        } && !(now_ms >= last_hide_ms && now_ms - last_hide_ms < 300 || now_ms < last_hide_ms)),
{
    config.click_toggles(button) && !popup_recently_hidden(now_ms, last_hide_ms)
}

/// What the popup's native window reports about the user's interaction.
#[derive(Clone, Copy, PartialEq, Eq, Structural, Debug)]
pub struct PopupInteraction {
    pub focused: bool,
    pub pointer_down: bool,
    pub resizing: bool,
}

/// The outcome of one check on a popup that lost focus.
#[derive(Clone, Copy, PartialEq, Eq, Structural, Debug)]
pub enum BlurCheck {
    /// Stop watching: focus came back, the mode changed, or the window is gone.
    Stop,
    /// Check again later.
    Watch,
    /// Hide the popup now (and stop watching).
    Hide,
}

/// Whether losing focus starts the watch that dismisses the popup.
pub fn starts_blur_watch(focused: bool, detached: bool) -> (r: bool)
    ensures
        r == (!focused && !detached),
{
    !focused && !detached
}

/// One check of a popup that lost focus, started at focus change `generation`
/// while the latest is `current_generation`.
pub fn recheck_popup_blur(
    current_generation: u64,
    generation: u64,
    detached: bool,
    visible: bool,
    interaction: Option<PopupInteraction>,
    since_resize_ms: u64,
) -> (r: BlurCheck)
    ensures
        r == if current_generation != generation || detached || !visible {
            BlurCheck::Stop
        } else {
            match interaction {
                None => BlurCheck::Stop,
                Some(i) => if !i.focused && !i.pointer_down && !i.resizing && since_resize_ms
                    >= 250 {
                    BlurCheck::Hide
                } else {
                    BlurCheck::Watch
                },
            }
        },
{
    if current_generation != generation || detached || !visible {
        return BlurCheck::Stop;
    }
    match interaction {
        None => BlurCheck::Stop,
        Some(i) => match popup_blur_action(i.focused, i.pointer_down, i.resizing, since_resize_ms) {
            PopupBlurAction::KeepOpen | PopupBlurAction::Wait => BlurCheck::Watch,
            PopupBlurAction::Hide => BlurCheck::Hide,
        },
    }
}

/// A monitor: its top-left corner, size (physical pixels) and name.
#[derive(Debug)]
pub struct MonitorArea {
    pub x: i32,
    pub y: i32,
    pub width: u32,
    pub height: u32,
    pub name: Option<String>,
}

/// Coordinates and sizes small enough that the placement arithmetic cannot overflow.
pub open spec fn small_coordinate(v: int) -> bool {
    -0x2000_0000 <= v <= 0x2000_0000
}

pub open spec fn monitors_small(ms: Seq<MonitorArea>) -> bool {
    forall|i: int|
        0 <= i < ms.len() ==> small_coordinate((#[trigger] ms[i]).x as int) && small_coordinate(
            ms[i].y as int,
        ) && ms[i].width <= 0x2000_0000 && ms[i].height <= 0x2000_0000
}

pub open spec fn name_view(n: Option<String>) -> Option<Seq<char>> {
    match n {
        Some(t) => Some(t@),
        None => None,
    }
}

/// The index of the first monitor whose name equals `name` (both may be absent).
pub open spec fn is_first_named(ms: Seq<MonitorArea>, name: Option<Seq<char>>, i: int) -> bool {
    &&& 0 <= i < ms.len()
    &&& name_view(ms[i].name) == name
    &&& forall|j: int| 0 <= j < i ==> name_view(ms[j].name) != name
}

/// The monitor to place the popup on: the one at `index`, else the primary
/// monitor (matched by name), else the first.
pub open spec fn chosen_monitor(ms: Seq<MonitorArea>, primary: Option<Option<Seq<char>>>, index: u8) -> Option<int> {
    if (index as int) < ms.len() {
        Some(index as int)
    } else if primary matches Some(p) && exists|i: int| is_first_named(ms, p, i) {
        Some(choose|i: int| is_first_named(ms, primary->0, i))
    } else if ms.len() > 0 {
        Some(0)
    } else {
        None
    }
}

/// Half of `v`, rounded toward zero, as integer division does.
pub open spec fn half(v: int) -> int {
    if v >= 0 {
        v / 2
    } else {
        -((-v) / 2)
    }
}

/// The popup's top-left corner on a monitor, 8 pixels from the chosen corner
/// or centered.
pub open spec fn corner_position(m: MonitorArea, win_w: u32, win_h: u32, pos: u8) -> (int, int) {
    let x = if pos == 1 || pos == 3 {
        m.x + 8
    } else if pos == 4 {
        m.x + half(m.width - win_w)
    } else {
        m.x + m.width - win_w - 8
    };
    let y = if pos == 2 || pos == 3 {
        m.y + 8
    } else if pos == 4 {
        m.y + half(m.height - win_h)
    } else {
        m.y + m.height - win_h - 8
    };
    (x, y)
}

/// Where the popup sits on a monitor, by placement code: the left placements
/// (1 bottom-left, 3 top-left) keep 8 pixels to the monitor's left edge, the
/// right ones (0 bottom-right, 2 top-right) 8 pixels to its right edge; the
/// top ones (2, 3) 8 pixels to its top edge, the bottom ones (0, 1) 8 pixels to
/// its bottom edge; the center (4) leaves gaps on opposite sides that differ
/// by at most one pixel.
pub proof fn lemma_popup_keeps_margin_to_its_corner(m: MonitorArea, win_w: u32, win_h: u32, pos: u8)
    ensures
        ({
            let (x, y) = corner_position(m, win_w, win_h, pos);
            &&& (pos == 1 || pos == 3) ==> x == m.x + 8
            &&& (pos == 0 || pos == 2) ==> x + win_w + 8 == m.x + m.width
            &&& (pos == 2 || pos == 3) ==> y == m.y + 8
            &&& (pos == 0 || pos == 1) ==> y + win_h + 8 == m.y + m.height
            &&& pos == 4 ==> {
                let left = x - m.x;
                let right = (m.x + m.width) - (x + win_w);
                let top = y - m.y;
                let bottom = (m.y + m.height) - (y + win_h);
                &&& -1 <= right - left <= 1
                &&& -1 <= bottom - top <= 1
            }
        }),
{
}

/// The placement names: "bottom-left" and "top-left" hug the monitor's left
/// edge, "bottom-right" and "top-right" its right edge, "top-left" and
/// "top-right" its top edge, "bottom-left" and "bottom-right" its bottom edge,
/// each 8 pixels away.
pub proof fn lemma_named_popup_corners(m: MonitorArea, win_w: u32, win_h: u32, name: Seq<char>)
    ensures
        ({
            let (x, y) = corner_position(m, win_w, win_h, position_code_of(name));
            &&& (name == "bottom-left"@ || name == "top-left"@) ==> x == m.x + 8
            &&& (name == "bottom-right"@ || name == "top-right"@) ==> x + win_w + 8 == m.x + m.width
            &&& (name == "top-left"@ || name == "top-right"@) ==> y == m.y + 8
            &&& (name == "bottom-left"@ || name == "bottom-right"@) ==> y + win_h + 8 == m.y + m.height
        }),
{
    reveal_strlit("bottom-left");
    reveal_strlit("bottom-right");
    reveal_strlit("top-left");
    reveal_strlit("top-right");
    reveal_strlit("center");
    assert("bottom-left"@.len() == 11 && "bottom-right"@.len() == 12 && "top-left"@.len() == 8
        && "top-right"@.len() == 9 && "center"@.len() == 6);
    if name == "bottom-left"@ {
        assert(position_code_of(name) == 1);
    } else if name == "top-left"@ {
        assert(name != "bottom-left"@ && name != "top-right"@);
        assert(position_code_of(name) == 3);
    } else if name == "top-right"@ {
        assert(name != "bottom-left"@);
        assert(position_code_of(name) == 2);
    } else if name == "bottom-right"@ {
        assert(name != "bottom-left"@ && name != "top-right"@ && name != "top-left"@ && name
            != "center"@);
        assert(position_code_of(name) == 0);
    }
    lemma_popup_keeps_margin_to_its_corner(m, win_w, win_h, position_code_of(name));
}

fn half_exec(v: i32) -> (r: i32)
    ensures
        r == half(v as int),
{
    if v >= 0 {
        v / 2
    } else {
        let n = -(v as i64);
        (-(n / 2)) as i32
    }
}

fn same_name(a: &Option<String>, b: &Option<String>) -> (r: bool)
    ensures
        r == (name_view(*a) == name_view(*b)),
{
    match (a, b) {
        (Some(x), Some(y)) => x.eq(y),
        (None, None) => true,
        _ => false,
    }
}

/// Picks the monitor for the popup.
pub fn choose_monitor(monitors: &Vec<MonitorArea>, primary: &Option<Option<String>>, index: u8) -> (r: Option<usize>)
    ensures
        match r {
            Some(i) => chosen_monitor(monitors@, match primary {
                Some(p) => Some(name_view(*p)),
                None => None,
            }, index) == Some(i as int),
            None => chosen_monitor(monitors@, match primary {
                Some(p) => Some(name_view(*p)),
                None => None,
            }, index) is None,
        },
{
    let ghost pv = match primary {
        Some(p) => Some(name_view(*p)),
        None => None,
    };
    if (index as usize) < monitors.len() {
        return Some(index as usize);
    }
    if let Some(p) = primary {
        let mut i: usize = 0;
        while i < monitors.len()
            invariant
                i <= monitors@.len(),
                (index as int) >= monitors@.len(),
                pv == Some(name_view(*p)),
                pv == match primary {
                    Some(q) => Some(name_view(*q)),
                    None => None,
                },
                forall|j: int| 0 <= j < i ==> name_view(monitors@[j].name) != name_view(*p),
            decreases monitors@.len() - i,
        {
            if same_name(&monitors[i].name, p) {
                proof {
                    assert(is_first_named(monitors@, name_view(*p), i as int));
                    let c = choose|c: int| is_first_named(monitors@, name_view(*p), c);
                    if c < i {
                        assert(name_view(monitors@[c].name) != name_view(*p));
                    } else if c > i {
                        assert(name_view(monitors@[i as int].name) != name_view(*p));
                    }
                }
                return Some(i);
            }
            i += 1;
        }
        assert(!exists|c: int| is_first_named(monitors@, name_view(*p), c));
    }
    if monitors.len() > 0 {
        Some(0)
    } else {
        None
    }
}

/// Where to put the popup on a monitor; nothing when windows cannot be placed
/// (Wayland) or there is no monitor.
pub fn position_on_monitor(
    positioning: bool,
    monitors: &Vec<MonitorArea>,
    primary: &Option<Option<String>>,
    win_w: u32,
    win_h: u32,
    monitor_index: u8,
    pos: u8,
) -> (r: Option<(i32, i32)>)
    requires
        monitors_small(monitors@),
        win_w <= 0x2000_0000,
        win_h <= 0x2000_0000,
    ensures
        match r {
            Some(xy) => positioning && ({
                let pv = match primary {
                    Some(p) => Some(name_view(*p)),
                    None => None,
                };
                let i = chosen_monitor(monitors@, pv, monitor_index)->0;
                chosen_monitor(monitors@, pv, monitor_index) is Some && (xy.0 as int, xy.1 as int)
                    == corner_position(monitors@[i], win_w, win_h, pos)
            }),
            None => !positioning || chosen_monitor(monitors@, match primary {
                Some(p) => Some(name_view(*p)),
                None => None,
            }, monitor_index) is None,
        },
{
    if !positioning {
        return None;
    }
    let i = match choose_monitor(monitors, primary, monitor_index) {
        Some(i) => i,
        None => return None,
    };
    let m = &monitors[i];
    assert(small_coordinate(m.x as int) && small_coordinate(m.y as int));
    let mw = m.width as i32;
    let mh = m.height as i32;
    let ww = win_w as i32;
    let wh = win_h as i32;
    let x = if pos == 1 || pos == 3 {
        m.x + 8
    } else if pos == 4 {
        m.x + half_exec(mw - ww)
    } else {
        m.x + mw - ww - 8
    };
    let y = if pos == 2 || pos == 3 {
        m.y + 8
    } else if pos == 4 {
        m.y + half_exec(mh - wh)
    } else {
        m.y + mh - wh - 8
    };
    Some((x, y))
}

/// Where to put the popup next to the tray icon on Windows and Linux: centered
/// on the icon, above it.
pub fn position_popup(
    positioning: bool,
    tray_x: i32,
    tray_y: i32,
    tray_w: i32,
    win_w: u32,
    win_h: u32,
) -> (r: Option<(i32, i32)>)
    requires
        small_coordinate(tray_x as int),
        small_coordinate(tray_y as int),
        0 <= tray_w <= 0x2000_0000,
        win_w <= 0x2000_0000,
        win_h <= 0x2000_0000,
    ensures
        positioning ==> r == Some((
            (tray_x + tray_w / 2 - (win_w / 2) as int) as i32,
            (tray_y - win_h) as i32,
        )),
        !positioning ==> r is None,
{
    if !positioning {
        return None;
    }
    let x = tray_x + tray_w / 2 - (win_w as i32) / 2;
    let y = tray_y - win_h as i32;
    Some((x, y))
}

/// The monitor that holds the point (`x`, `y`).
pub open spec fn holds_point(m: MonitorArea, x: int, y: int) -> bool {
    m.x <= x < m.x + m.width && m.y <= y < m.y + m.height
}

pub open spec fn is_first_holding(ms: Seq<MonitorArea>, x: int, y: int, i: int) -> bool {
    &&& 0 <= i < ms.len()
    &&& holds_point(ms[i], x, y)
    &&& forall|j: int| 0 <= j < i ==> !holds_point(ms[j], x, y)
}

/// The monitor under the legacy icon's corner, else the first monitor.
pub open spec fn icon_monitor(ms: Seq<MonitorArea>, x: int, y: int) -> Option<int> {
    if exists|i: int| is_first_holding(ms, x, y, i) {
        Some(choose|i: int| is_first_holding(ms, x, y, i))
    } else if ms.len() > 0 {
        Some(0)
    } else {
        None
    }
}

/// The popup's corner beside the legacy status icon at (`ix`, `iy`) of size
/// `iw` by `ih` on monitor `m`: centered on the icon but kept on the monitor
/// horizontally, and below the icon in the monitor's top half, above it otherwise.
pub open spec fn beside_icon(m: MonitorArea, ix: int, iy: int, iw: int, ih: int, win_w: u32, win_h: u32) -> (int, int) {
    let min_x = m.x as int;
    let max_x = m.x + m.width - win_w;
    let hi = if max_x >= min_x {
        max_x
    } else {
        min_x
    };
    let want = ix + iw / 2 - win_w / 2;
    let x = if want < min_x {
        min_x
    } else if want > hi {
        hi
    } else {
        want
    };
    let mid = m.y + m.height / 2;
    let y = if iy < mid {
        iy + ih
    } else {
        iy - win_h
    };
    (x, y)
}

/// The monitor under the point (`ix`, `iy`), else the first one.
fn find_icon_monitor(monitors: &Vec<MonitorArea>, ix: i32, iy: i32) -> (r: Option<usize>)
    requires
        monitors_small(monitors@),
        small_coordinate(ix as int) && small_coordinate(iy as int),
    ensures
        match r {
            Some(k) => icon_monitor(monitors@, ix as int, iy as int) == Some(k as int),
            None => icon_monitor(monitors@, ix as int, iy as int) is None,
        },
{
    let mut i: usize = 0;
    while i < monitors.len()
        invariant
            i <= monitors@.len(),
            monitors_small(monitors@),
            forall|j: int| 0 <= j < i ==> !holds_point(monitors@[j], ix as int, iy as int),
        decreases monitors@.len() - i,
    {
        let m = &monitors[i];
        assert(small_coordinate(m.x as int) && small_coordinate(m.y as int));
        if ix >= m.x && (ix as i64) < (m.x as i64) + (m.width as i64) && iy >= m.y && (iy as i64)
            < (m.y as i64) + (m.height as i64) {
            proof {
                assert(is_first_holding(monitors@, ix as int, iy as int, i as int));
                let c = choose|c: int| is_first_holding(monitors@, ix as int, iy as int, c);
                if c < i {
                    assert(!holds_point(monitors@[c], ix as int, iy as int));
                } else if c > i {
                    assert(!holds_point(monitors@[i as int], ix as int, iy as int));
                }
            }
            return Some(i);
        }
        i += 1;
    }
    assert(!exists|c: int| is_first_holding(monitors@, ix as int, iy as int, c));
    if monitors.len() == 0 {
        None
    } else {
        Some(0)
    }
}

/// Where to put the popup beside the legacy status icon, given the icon's
/// area if GTK reports one; without it the popup goes to the first
/// monitor's bottom-right corner.
pub fn position_legacy_popup(
    positioning: bool,
    icon: Option<(i32, i32, i32, i32)>,
    monitors: &Vec<MonitorArea>,
    primary: &Option<Option<String>>,
    win_w: u32,
    win_h: u32,
) -> (r: Option<(i32, i32)>)
    requires
        monitors_small(monitors@),
        win_w <= 0x2000_0000,
        win_h <= 0x2000_0000,
        icon matches Some(g) ==> small_coordinate(g.0 as int) && small_coordinate(g.1 as int)
            && 0 <= g.2 <= 0x2000_0000 && 0 <= g.3 <= 0x2000_0000,
    ensures
        !positioning ==> r is None,
        positioning && icon is None ==> r == position_on_monitor_spec(monitors@, match primary {
            Some(p) => Some(name_view(*p)),
            None => None,
        }, win_w, win_h, 0, 0),
        positioning ==> (icon matches Some(g) ==> match icon_monitor(monitors@, g.0 as int, g.1 as int) {
            Some(i) => r matches Some(xy) && (xy.0 as int, xy.1 as int) == beside_icon(
                monitors@[i], g.0 as int, g.1 as int, g.2 as int, g.3 as int, win_w, win_h),
            None => r is None,
        }),
{
    if !positioning {
        return None;
    }
    let (ix, iy, iw, ih) = match icon {
        Some(g) => g,
        None => return position_on_monitor(positioning, monitors, primary, win_w, win_h, 0, 0),
    };
    let k = match find_icon_monitor(monitors, ix, iy) {
        Some(k) => k,
        None => return None,
    };
    let m = &monitors[k];
    assert(small_coordinate(m.x as int) && small_coordinate(m.y as int));
    let min_x = m.x;
    let max_x = m.x + m.width as i32 - win_w as i32;
    let hi = if max_x >= min_x {
        max_x
    } else {
        min_x
    };
    let want = ix + iw / 2 - (win_w as i32) / 2;
    let x = if want < min_x {
        min_x
    } else if want > hi {
        hi
    } else {
        want
    };
    let mid = m.y + (m.height as i32) / 2;
    let y = if iy < mid {
        iy + ih
    } else {
        iy - win_h as i32
    };
    Some((x, y))
}

/// The position `position_on_monitor` gives when windows can be placed.
pub open spec fn position_on_monitor_spec(
    ms: Seq<MonitorArea>,
    primary: Option<Option<Seq<char>>>,
    win_w: u32,
    win_h: u32,
    index: u8,
    pos: u8,
) -> Option<(i32, i32)> {
    match chosen_monitor(ms, primary, index) {
        Some(i) => {
            let (x, y) = corner_position(ms[i], win_w, win_h, pos);
            Some((x as i32, y as i32))
        },
        None => None,
    }
}


/// A monitor as listed to the front end.
#[derive(Debug)]
pub struct MonitorInfo {
    pub index: usize,
    pub name: String,
    pub primary: bool,
}

/// The fallback name of the monitor at `index`.
pub open spec fn numbered_monitor(index: nat) -> Seq<char> {
    "Monitor "@ + decimal(index + 1)
}

/// Lists monitors by name (numbered from 1 when unnamed), marking the one
/// whose name equals the primary monitor's (an unnamed monitor counts as
/// primary when the primary's name is unknown too).
pub fn list_monitors(names: &Vec<Option<String>>, primary_name: &Option<String>) -> (r: Vec<MonitorInfo>)
    requires
        names@.len() < usize::MAX,
    ensures
        r@.len() == names@.len(),
        forall|i: int|
            0 <= i < names@.len() ==> (#[trigger] r@[i]).index == i && r@[i].name@ == match names@[i] {
                Some(n) => n@,
                None => numbered_monitor(i as nat),
            } && r@[i].primary == (name_view(names@[i]) == name_view(*primary_name)),
{
    let mut out: Vec<MonitorInfo> = Vec::new();
    let mut i: usize = 0;
    while i < names.len()
        invariant
            i <= names@.len(),
            names@.len() < usize::MAX,
            out@.len() == i,
            forall|k: int|
                0 <= k < i ==> (#[trigger] out@[k]).index == k && out@[k].name@ == match names@[k] {
                    Some(n) => n@,
                    None => numbered_monitor(k as nat),
                } && out@[k].primary == (name_view(names@[k]) == name_view(*primary_name)),
        decreases names@.len() - i,
    {
        let name = match &names[i] {
            Some(n) => n.clone(),
            None => {
                let mut n = String::from_str("Monitor ");
                let digits = decimal_string((i + 1) as u64);
                n.append(digits.as_str());
                n
            },
        };
        let primary = same_name(&names[i], primary_name);
        out.push(MonitorInfo { index: i, name, primary });
        i += 1;
    }
    out
}

/// The names of the five tray menu entries, validated.
pub fn validate_menu_labels(
    toggle_label: &str,
    settings_label: &str,
    open_kimai_label: &str,
    refresh_label: &str,
    quit_label: &str,
) -> (r: Result<(), String>)
    ensures
        r is Ok <==> (toggle_label@.len() <= 128 && settings_label@.len() <= 128
            && open_kimai_label@.len() <= 128 && refresh_label@.len() <= 128 && quit_label@.len()
            <= 128),
        r matches Err(e) ==> e@ == if toggle_label@.len() > 128 {
            too_long_message("Toggle label"@, 128)
        } else if settings_label@.len() > 128 {
            too_long_message("Settings label"@, 128)
        } else if open_kimai_label@.len() > 128 {
            too_long_message("Open Kimai label"@, 128)
        } else if refresh_label@.len() > 128 {
            too_long_message("Refresh label"@, 128)
        } else {
            too_long_message("Quit label"@, 128)
        },
{
    validate_text(toggle_label, 128, "Toggle label")?;
    validate_text(settings_label, 128, "Settings label")?;
    validate_text(open_kimai_label, 128, "Open Kimai label")?;
    validate_text(refresh_label, 128, "Refresh label")?;
    validate_text(quit_label, 128, "Quit label")?;
    Ok(())
}

/// A running timer as the tray shows it.
#[derive(Debug)]
pub struct TrayTickerRunning {
    pub begin_seconds: u64,
    pub project: String,
    pub activity: String,
    pub label_style: String,
    pub show_seconds: bool,
}

/// Starts showing a running timer, after checking its texts and label style.
pub fn start_tray_ticker(
    begin_seconds: u64,
    project: String,
    activity: String,
    label_style: String,
    show_seconds: bool,
) -> (r: Result<TrayTickerRunning, String>)
    ensures
        r is Ok <==> (project@.len() <= 256 && activity@.len() <= 256 && (label_style@
            == "timer"@ || label_style@ == "project"@ || label_style@ == "activity"@ || label_style@
            == "hidden"@)),
        r matches Err(e) ==> e@ == if project@.len() > 256 {
            too_long_message("Project"@, 256)
        } else if activity@.len() > 256 {
            too_long_message("Activity"@, 256)
        } else {
            "Invalid tray label style"@
        },
        r matches Ok(t) ==> t.begin_seconds == begin_seconds && t.project@ == project@
            && t.activity@ == activity@ && t.label_style@ == label_style@ && t.show_seconds
            == show_seconds,
{
    validate_text(project.as_str(), 256, "Project")?;
    validate_text(activity.as_str(), 256, "Activity")?;
    let s = label_style.as_str();
    if !(str_eq(s, "timer") || str_eq(s, "project") || str_eq(s, "activity") || str_eq(s, "hidden")) {
        return Err(String::from_str("Invalid tray label style"));
    }
    Ok(TrayTickerRunning { begin_seconds, project, activity, label_style, show_seconds })
}

pub open spec fn sat_sub(a: u64, b: u64) -> u64 {
    if a >= b {
        (a - b) as u64
    } else {
        0
    }
}

/// The tooltip and the title beside the icon for a running timer at `now`.
pub fn tick_texts(running: &TrayTickerRunning, now: u64) -> (r: (String, String))
    ensures
        r.0@ == running_tooltip(running.project@, running.activity@, sat_sub(now, running.begin_seconds)),
        r.1@ == label_title(
            running.label_style@,
            running.project@,
            running.activity@,
            sat_sub(now, running.begin_seconds),
            running.show_seconds,
        ),
{
    let secs = now.saturating_sub(running.begin_seconds);
    let tooltip = tray_tooltip(running.project.as_str(), running.activity.as_str(), secs);
    let title = tray_label_title(
        running.label_style.as_str(),
        running.project.as_str(),
        running.activity.as_str(),
        secs,
        running.show_seconds,
    );
    (tooltip, title)
}

/// The Kimai URL may be opened only over HTTP(S) and without credentials.
pub fn kimai_url_allowed(scheme: &str, username: &str, has_password: bool) -> (r: bool)
    ensures
        r == ((scheme@ == "http"@ || scheme@ == "https"@) && username@.len() == 0 && !has_password),
{
    (str_eq(scheme, "http") || str_eq(scheme, "https")) && username.unicode_len() == 0
        && !has_password
}

/// The `kimaiUrl` text of the settings document, if there is one.
pub fn kimai_url(settings: &Json) -> (r: Option<String>)
    ensures
        match r {
            Some(u) => as_text(field(settings@, "kimaiUrl"@)) == Some(u@),
            None => as_text(field(settings@, "kimaiUrl"@)) is None,
        },
{
    match text_of(get_field(settings, "kimaiUrl")) {
        Some(u) => Some(u.clone()),
        None => None,
    }
}

/// Whether the "True Tray" preference (macOS: no Dock icon) is on; off by default.
pub fn true_tray_enabled(settings: &Json) -> (r: bool)
    ensures
        r == (crate::json::as_bool(field(settings@, "trueTrayMode"@)) == Some(true)),
{
    match get_field(settings, "trueTrayMode") {
        Some(Json::Bool(b)) => *b,
        _ => false,
    }
}

} // verus!
