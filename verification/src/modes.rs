//! The editor's UI modes, their order, labels, shortcuts and which parts of
//! the layout each one shows.
use vstd::prelude::*;

verus! {

#[derive(Clone, Copy, Debug, PartialEq, Eq, Structural)]
pub enum UiMode {
    Standard,
    Focus,
    Performance,
    Debug,
    Zen,
    Review,
}

/// Which parts of the layout a mode shows and which behaviours it enables.
/// (The editor's maximum width, a length in pixels, lives with the
/// renderer.)
#[derive(Clone, Copy, Debug, PartialEq, Eq, Structural)]
pub struct ModeLayoutFlags {
    pub activity_bar: bool,
    pub tab_bar: bool,
    pub breadcrumbs: bool,
    pub gutter: bool,
    pub status_bar: bool,
    pub ai_panel_allowed: bool,
    pub sidebar_allowed: bool,
    pub center_editor: bool,
    pub cursor_blink: bool,
    pub animations: bool,
    pub show_frame_time: bool,
}

/// The position of a mode in the cycle.
pub open spec fn mode_index(m: UiMode) -> int {
    match m {
        UiMode::Standard => 0,
        UiMode::Focus => 1,
        UiMode::Performance => 2,
        UiMode::Debug => 3,
        UiMode::Zen => 4,
        UiMode::Review => 5,
    }
}

/// The modes in cycle order.
pub open spec fn mode_cycle() -> Seq<UiMode> {
    seq![UiMode::Standard, UiMode::Focus, UiMode::Performance, UiMode::Debug, UiMode::Zen, UiMode::Review]
}

pub open spec fn next_mode(m: UiMode) -> UiMode {
    mode_cycle()[(mode_index(m) + 1) % 6]
}

pub open spec fn prev_mode(m: UiMode) -> UiMode {
    mode_cycle()[(mode_index(m) + 5) % 6]
}

/// `(activity_bar, tab_bar, breadcrumbs, gutter, status_bar,
/// ai_panel_allowed, sidebar_allowed, center_editor, cursor_blink,
/// animations, show_frame_time)` for a mode.
pub open spec fn flags_of(m: UiMode) -> ModeLayoutFlags {
    let f = |a: bool, t: bool, b: bool, g: bool, s: bool, ai: bool, sb: bool, c: bool, cb: bool, an: bool, ft: bool|
        ModeLayoutFlags {
            activity_bar: a,
            tab_bar: t,
            breadcrumbs: b,
            gutter: g,
            status_bar: s,
            ai_panel_allowed: ai,
            sidebar_allowed: sb,
            center_editor: c,
            cursor_blink: cb,
            animations: an,
            show_frame_time: ft,
        };
    match m {
        UiMode::Standard => f(true, true, true, true, true, true, true, false, true, true, true),
        UiMode::Focus => f(false, true, false, true, true, false, false, true, true, true, false),
        UiMode::Performance => f(false, false, false, true, true, false, false, false, false, false, true),
        UiMode::Debug => f(true, true, false, true, true, false, true, false, true, true, true),
        UiMode::Zen => f(false, false, false, false, false, false, false, true, true, false, false),
        UiMode::Review => f(true, true, true, true, true, true, false, false, true, true, false),
    }
}

impl UiMode {
    /// Every mode, in cycle order.
    pub fn all() -> (r: &'static [UiMode])
        ensures
            r@ == mode_cycle(),
    {
        let r: &'static [UiMode] = &[
            UiMode::Standard,
            UiMode::Focus,
            UiMode::Performance,
            UiMode::Debug,
            UiMode::Zen,
            UiMode::Review,
        ];
        assert(r@ =~= mode_cycle());
        r
    }

    pub fn label(&self) -> (r: &'static str)
        ensures
            r@ == (match *self {
                UiMode::Standard => "🖥️ Standard"@,
                UiMode::Focus => "🎯 Focus"@,
                UiMode::Performance => "⚡ Perf"@,
                UiMode::Debug => "🐛 Debug"@,
                UiMode::Zen => "🧘 Zen"@,
                UiMode::Review => "📝 Review"@,
            }),
    {
        match self {
            UiMode::Standard => "🖥️ Standard",
            UiMode::Focus => "🎯 Focus",
            UiMode::Performance => "⚡ Perf",
            UiMode::Debug => "🐛 Debug",
            UiMode::Zen => "🧘 Zen",
            UiMode::Review => "📝 Review",
        }
    }

    pub fn shortcut(&self) -> (r: &'static str)
        ensures
            r@ == (match *self {
                UiMode::Standard => "Ctrl+Shift+1"@,
                UiMode::Focus => "Ctrl+Shift+F"@,
                UiMode::Performance => "Ctrl+Shift+H"@,
                UiMode::Debug => "F5"@,
                UiMode::Zen => "Ctrl+K Z"@,
                UiMode::Review => "Ctrl+Shift+R"@,
            }),
    {
        match self {
            UiMode::Standard => "Ctrl+Shift+1",
            UiMode::Focus => "Ctrl+Shift+F",
            UiMode::Performance => "Ctrl+Shift+H",
            UiMode::Debug => "F5",
            UiMode::Zen => "Ctrl+K Z",
            UiMode::Review => "Ctrl+Shift+R",
        }
    }

    /// The layout flags of this mode.
    pub fn layout_flags(&self) -> (r: ModeLayoutFlags)
        ensures
            r == flags_of(*self),
    {
        match self {
            UiMode::Standard => ModeLayoutFlags {
                activity_bar: true,
                tab_bar: true,
                breadcrumbs: true,
                gutter: true,
                status_bar: true,
                ai_panel_allowed: true,
                sidebar_allowed: true,
                center_editor: false,
                cursor_blink: true,
                animations: true,
                show_frame_time: true,
            },
            UiMode::Focus => ModeLayoutFlags {
                activity_bar: false,
                tab_bar: true,
                breadcrumbs: false,
                gutter: true,
                status_bar: true,
                ai_panel_allowed: false,
                sidebar_allowed: false,
                center_editor: true,
                cursor_blink: true,
                animations: true,
                show_frame_time: false,
            },
            UiMode::Performance => ModeLayoutFlags {
                activity_bar: false,
                tab_bar: false,
                breadcrumbs: false,
                gutter: true,
                status_bar: true,
                ai_panel_allowed: false,
                sidebar_allowed: false,
                center_editor: false,
                cursor_blink: false,
                animations: false,
                show_frame_time: true,
            },
            UiMode::Debug => ModeLayoutFlags {
                activity_bar: true,
                tab_bar: true,
                breadcrumbs: false,
                gutter: true,
                status_bar: true,
                ai_panel_allowed: false,
                sidebar_allowed: true,
                center_editor: false,
                cursor_blink: true,
                animations: true,
                show_frame_time: true,
            },
            UiMode::Zen => ModeLayoutFlags {
                activity_bar: false,
                tab_bar: false,
                breadcrumbs: false,
                gutter: false,
                status_bar: false,
                ai_panel_allowed: false,
                sidebar_allowed: false,
                center_editor: true,
                cursor_blink: true,
                animations: false,
                show_frame_time: false,
            },
            UiMode::Review => ModeLayoutFlags {
                activity_bar: true,
                tab_bar: true,
                breadcrumbs: true,
                gutter: true,
                status_bar: true,
                ai_panel_allowed: true,
                sidebar_allowed: false,
                center_editor: false,
                cursor_blink: true,
                animations: true,
                show_frame_time: false,
            },
        }
    }

    /// The next mode in the cycle (Review wraps to Standard).
    pub fn next(&self) -> (r: Self)
        ensures
            r == next_mode(*self),
    {
        match self {
            UiMode::Standard => UiMode::Focus,
            UiMode::Focus => UiMode::Performance,
            UiMode::Performance => UiMode::Debug,
            UiMode::Debug => UiMode::Zen,
            UiMode::Zen => UiMode::Review,
            UiMode::Review => UiMode::Standard,
        }
    }

    /// The previous mode in the cycle (Standard wraps to Review).
    pub fn prev(&self) -> (r: Self)
        ensures
            r == prev_mode(*self),
    {
        match self {
            UiMode::Standard => UiMode::Review,
            UiMode::Focus => UiMode::Standard,
            UiMode::Performance => UiMode::Focus,
            UiMode::Debug => UiMode::Performance,
            UiMode::Zen => UiMode::Debug,
            UiMode::Review => UiMode::Zen,
        }
    }
}

/// `Standard` is the default mode.
impl Default for UiMode {
    fn default() -> (r: Self)
        ensures
            r == UiMode::Standard,
    {
        UiMode::Standard
    }
}

/// Stepping back undoes stepping forward, and the other way round.
pub proof fn law_next_prev_inverse(m: UiMode)
    ensures
        prev_mode(next_mode(m)) == m,
        next_mode(prev_mode(m)) == m,
{
}

/// Six steps forward come back to the start, and no fewer do.
pub proof fn law_cycle_length(m: UiMode)
    ensures
        next_mode(next_mode(next_mode(next_mode(next_mode(next_mode(m)))))) == m,
        next_mode(m) != m,
        next_mode(next_mode(m)) != m,
        next_mode(next_mode(next_mode(m))) != m,
        next_mode(next_mode(next_mode(next_mode(m)))) != m,
        next_mode(next_mode(next_mode(next_mode(next_mode(m))))) != m,
{
}

/// The list `UiMode::all` gives (`mode_cycle`) holds each mode exactly once,
/// at its place in the cycle, and `next` moves from each entry to the
/// following one, from the last back to the first.
pub proof fn law_all_modes(m: UiMode)
    ensures
        mode_cycle().len() == 6,
        mode_cycle()[mode_index(m)] == m,
        forall|i: int| 0 <= i < 6 ==> mode_index(#[trigger] mode_cycle()[i]) == i,
        forall|i: int| 0 <= i < 6 ==> next_mode(#[trigger] mode_cycle()[i]) == mode_cycle()[(i + 1) % 6],
{
}

} // verus!
