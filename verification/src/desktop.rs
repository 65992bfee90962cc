//! The desktop-style portfolio sites' decisions: the taskbar's clock and
//! buttons, the assistant's quotes and clicks, window placement while
//! dragging, and how a project's window is filled.
use vstd::prelude::*;
use crate::config::{Game, Quote, StartMenuItem};
use crate::dashboard::contains_seq;
use crate::state::WindowState;
use crate::text::{
    chars_eq, chars_of, contains_char, contains_char_exec, decimal, ends_with, ends_with_exec,
    extend_str, push_decimal, push_zero_padded, starts_with, starts_with_exec, string_from_chars,
    zero_padded,
};

verus! {

broadcast use vstd::string::group_string_axioms;

// ── Icons given as text or as an image ──────────────────────────

/// The assistant's icon is an image when it looks like a URL or a path.
pub open spec fn looks_like_url(s: Seq<char>) -> bool {
    starts_with(s, "http"@) || starts_with(s, "data:"@) || contains_char(s, '/')
}

/// Whether the assistant's icon is an image rather than a character.
pub fn clippy_icon_is_url(s: &str) -> (b: bool)
    ensures
        b == looks_like_url(s@),
{
    let cs = chars_of(s);
    let http = chars_of("http");
    let data = chars_of("data:");
    starts_with_exec(cs.as_slice(), http.as_slice()) || starts_with_exec(
        cs.as_slice(),
        data.as_slice(),
    ) || contains_char_exec(cs.as_slice(), '/')
}

/// Whether the start button's icon is an image: as for the assistant, or a
/// file name with an extension.
pub fn start_icon_is_url(s: &str) -> (b: bool)
    ensures
        b == (looks_like_url(s@) || contains_char(s@, '.')),
{
    let cs = chars_of(s);
    clippy_icon_is_url(s) || contains_char_exec(cs.as_slice(), '.')
}

// ── The taskbar ─────────────────────────────────────────────────

/// The clock of the taskbar: twelve-hour time with two-digit hours and
/// minutes, then AM or PM.
pub open spec fn clock_text(hours: nat, minutes: nat) -> Seq<char> {
    let h: int = if hours >= 12 {
        if hours == 12 {
            12
        } else {
            hours - 12
        }
    } else if hours == 0 {
        12
    } else {
        hours as int
    };
    zero_padded(h as nat, 2) + ":"@ + zero_padded(minutes, 2) + (if hours >= 12 {
        " PM"@
    } else {
        " AM"@
    })
}

/// The clock text for the given hour of the day and minute.
pub fn format_clock(hours: u32, minutes: u32) -> (t: String)
    ensures
        t@ == clock_text(hours as nat, minutes as nat),
{
    let h: u32 = if hours >= 12 {
        if hours == 12 {
            12
        } else {
            hours - 12
        }
    } else if hours == 0 {
        12
    } else {
        hours
    };
    let mut out: Vec<char> = Vec::new();
    push_zero_padded(&mut out, h as u64, 2);
    extend_str(&mut out, ":");
    push_zero_padded(&mut out, minutes as u64, 2);
    if hours >= 12 {
        extend_str(&mut out, " PM");
    } else {
        extend_str(&mut out, " AM");
    }
    string_from_chars(out.as_slice())
}

/// The title of the first project with the given id.
pub open spec fn title_for(games: Seq<Game>, id: Seq<char>) -> Option<Seq<char>>
    decreases games.len(),
{
    if games.len() == 0 {
        None
    } else if games[0].id@ == id {
        Some(games[0].title@)
    } else {
        title_for(games.drop_first(), id)
    }
}

proof fn lemma_title_for_skip(games: Seq<Game>, id: Seq<char>, i: int)
    requires
        0 <= i <= games.len(),
        forall|j: int| 0 <= j < i ==> games[j].id@ != id,
    ensures
        title_for(games, id) == title_for(games.skip(i), id),
    decreases i,
{
    if i > 0 {
        lemma_title_for_skip(games.drop_first(), id, i - 1);
        assert(games.drop_first().skip(i - 1) =~= games.skip(i));
    } else {
        assert(games.skip(0) =~= games);
    }
}

/// The title a window's button shows: its project's, or the id itself.
pub fn window_title(games: &[Game], id: &str) -> (t: String)
    ensures
        t@ == (match title_for(games@, id@) {
            Some(title) => title,
            None => id@,
        }),
{
    let idc = chars_of(id);
    let mut i: usize = 0;
    while i < games.len()
        invariant
            i <= games.len(),
            idc@ == id@,
            forall|j: int| 0 <= j < i ==> games@[j].id@ != id@,
        decreases games.len() - i,
    {
        let g = chars_of(games[i].id.as_str());
        if chars_eq(g.as_slice(), idc.as_slice()) {
            proof {
                lemma_title_for_skip(games@, id@, i as int);
                assert(games@.skip(i as int)[0] == games@[i as int]);
            }
            return games[i].title.clone();
        }
        i = i + 1;
    }
    proof {
        lemma_title_for_skip(games@, id@, games.len() as int);
        assert(games@.skip(games.len() as int).len() == 0);
    }
    id.to_string()
}

/// The buttons of the taskbar: for each open window, in order, its id and title.
pub open spec fn taskbar_buttons_of(windows: Seq<WindowState>, games: Seq<Game>) -> Seq<(Seq<char>, Seq<char>)>
    decreases windows.len(),
{
    if windows.len() == 0 {
        seq![]
    } else {
        let rest = taskbar_buttons_of(windows.drop_last(), games);
        let w = windows.last();
        if w.open {
            rest.push(
                (
                    w.game_id@,
                    match title_for(games, w.game_id@) {
                        Some(t) => t,
                        None => w.game_id@,
                    },
                ),
            )
        } else {
            rest
        }
    }
}

/// The buttons of the taskbar: each open window's id and title.
pub fn taskbar_buttons(windows: &[WindowState], games: &[Game]) -> (buttons: Vec<(String, String)>)
    ensures
        crate::post::pair_views(buttons@) == taskbar_buttons_of(windows@, games@),
{
    let mut out: Vec<(String, String)> = Vec::new();
    let mut i: usize = 0;
    while i < windows.len()
        invariant
            i <= windows.len(),
            crate::post::pair_views(out@) == taskbar_buttons_of(windows@.take(i as int), games@),
        decreases windows.len() - i,
    {
        proof {
            assert(windows@.take(i + 1).drop_last() =~= windows@.take(i as int));
            assert(windows@.take(i + 1).last() == windows@[i as int]);
        }
        let w = &windows[i];
        if w.open {
            let title = window_title(games, w.game_id.as_str());
            let ghost before = crate::post::pair_views(out@);
            out.push((w.game_id.clone(), title));
            assert(crate::post::pair_views(out@) =~= before.push(
                (w.game_id@, crate::post::pair_views(out@).last().1),
            ));
        }
        i = i + 1;
    }
    assert(windows@.take(windows.len() as int) =~= windows@);
    out
}

/// The label of a start-menu item: its icon, a space, its title.
pub fn start_menu_label(item: &StartMenuItem) -> (label: String)
    ensures
        label@ == item.icon@ + " "@ + item.title@,
{
    let mut out: Vec<char> = Vec::new();
    extend_str(&mut out, item.icon.as_str());
    extend_str(&mut out, " ");
    extend_str(&mut out, item.title.as_str());
    string_from_chars(out.as_slice())
}

// ── The assistant ───────────────────────────────────────────────

/// The quote the assistant says: the one at the index, or nothing.
pub fn current_quote(quotes: &[Quote], index: usize) -> (text: String)
    ensures
        index < quotes.len() ==> text@ == quotes@[index as int].text@,
        index >= quotes.len() ==> text@ == Seq::<char>::empty(),
{
    if index < quotes.len() {
        quotes[index].text.clone()
    } else {
        String::new()
    }
}

/// The quote after the current one, round the list; without quotes the
/// index stays.
pub fn next_quote_index(index: usize, total: usize) -> (next: usize)
    requires
        total > 0 ==> index < usize::MAX,
    ensures
        total > 0 ==> next == (index + 1) % (total as int),
        total == 0 ==> next == index,
{
    if total > 0 {
        (index + 1) % total
    } else {
        index
    }
}

/// The speech bubble shows when it is not hidden and there is a quote.
pub fn bubble_shown(visible: bool, quote: &str) -> (b: bool)
    ensures
        b == (visible && quote@.len() > 0),
{
    let q = chars_of(quote);
    visible && q.len() > 0
}

/// What a click on the assistant's icon does.
#[derive(Clone, Copy, Debug, PartialEq, Eq, Structural)]
pub enum IconClick {
    /// The click ended a drag: nothing.
    Ignore,
    /// The bubble was hidden: show it again and cancel the timer.
    ShowBubble,
    /// Open the information window.
    OpenModal,
}

/// What a click on the assistant's icon does, after a drag or not, with the
/// bubble shown or hidden.
pub fn icon_click(dragged: bool, bubble_visible: bool) -> (c: IconClick)
    ensures
        c == (if dragged {
            IconClick::Ignore
        } else if !bubble_visible {
            IconClick::ShowBubble
        } else {
            IconClick::OpenModal
        }),
{
    if dragged {
        IconClick::Ignore
    } else if !bubble_visible {
        IconClick::ShowBubble
    } else {
        IconClick::OpenModal
    }
}

/// A click outside the assistant hides its bubble while the bubble shows
/// and no window of it is open.
pub fn outside_click_hides(bubble_visible: bool, modal_open: bool) -> (b: bool)
    ensures
        b == (bubble_visible && !modal_open),
{
    bubble_visible && !modal_open
}

/// A signed integer in decimal.
pub open spec fn signed_decimal(v: int) -> Seq<char> {
    if v < 0 {
        "-"@ + decimal((-v) as nat)
    } else {
        decimal(v as nat)
    }
}

/// Appends a signed integer in decimal.
fn push_signed(out: &mut Vec<char>, v: i32)
    ensures
        final(out)@ == old(out)@ + signed_decimal(v as int),
{
    if v < 0 {
        out.push('-');
        let m: u128 = (0i64 - (v as i64)) as u128;
        push_decimal(out, m);
        proof {
            reveal_strlit("-");
        }
        assert(out@ =~= old(out)@ + signed_decimal(v as int));
    } else {
        push_decimal(out, v as u128);
    }
}

/// The position style of the assistant once dragged; none before.
pub fn clippy_style(pos: Option<(i32, i32)>) -> (style: String)
    ensures
        match pos {
            Some((x, y)) => style@ == "position:fixed; left:"@ + signed_decimal(x as int)
                + "px; top:"@ + signed_decimal(y as int)
                + "px; right:auto; bottom:auto; z-index:10;"@,
            None => style@ == Seq::<char>::empty(),
        },
{
    match pos {
        Some((x, y)) => {
            let mut out: Vec<char> = Vec::new();
            extend_str(&mut out, "position:fixed; left:");
            push_signed(&mut out, x);
            extend_str(&mut out, "px; top:");
            push_signed(&mut out, y);
            extend_str(&mut out, "px; right:auto; bottom:auto; z-index:10;");
            string_from_chars(out.as_slice())
        },
        None => String::new(),
    }
}

// ── Dragging windows ────────────────────────────────────────────

/// Where the pointer grabbed a window, relative to the window.
pub fn drag_offset(pointer: (i32, i32), pos: (i32, i32)) -> (offset: (i32, i32))
    requires
        i32::MIN <= pointer.0 - pos.0 <= i32::MAX,
        i32::MIN <= pointer.1 - pos.1 <= i32::MAX,
    ensures
        offset.0 == pointer.0 - pos.0,
        offset.1 == pointer.1 - pos.1,
{
    (pointer.0 - pos.0, pointer.1 - pos.1)
}

/// Where a dragged window goes: the pointer less where it was grabbed.
pub fn dragged_to(pointer: (i32, i32), offset: (i32, i32)) -> (pos: (i32, i32))
    requires
        i32::MIN <= pointer.0 - offset.0 <= i32::MAX,
        i32::MIN <= pointer.1 - offset.1 <= i32::MAX,
    ensures
        pos.0 == pointer.0 - offset.0,
        pos.1 == pointer.1 - offset.1,
{
    (pointer.0 - offset.0, pointer.1 - offset.1)
}

/// A dragged window moves exactly as the pointer moves: placed by the grip
/// taken where the drag began, it is shifted by the pointer's movement.
pub proof fn law_drag_moves_with_pointer(start: (i32, i32), pos: (i32, i32), pointer: (i32, i32))
    ensures
        pointer.0 - (start.0 - pos.0) == pos.0 + (pointer.0 - start.0),
        pointer.1 - (start.1 - pos.1) == pos.1 + (pointer.1 - start.1),
{
}

/// The style of a window: its place, stacking order and mobile jitter.
pub fn window_style(pos: (i32, i32), z_index: u32, jitter: (i32, i32)) -> (style: String)
    ensures
        style@ == "position:absolute; left:"@ + signed_decimal(pos.0 as int) + "px; top:"@
            + signed_decimal(pos.1 as int) + "px; z-index:"@ + decimal(z_index as nat)
            + "; width:480px; min-height:300px; --jitter-x:"@ + signed_decimal(jitter.0 as int)
            + "px; --jitter-y:"@ + signed_decimal(jitter.1 as int) + "px;"@,
{
    let mut out: Vec<char> = Vec::new();
    extend_str(&mut out, "position:absolute; left:");
    push_signed(&mut out, pos.0);
    extend_str(&mut out, "px; top:");
    push_signed(&mut out, pos.1);
    extend_str(&mut out, "px; z-index:");
    push_decimal(&mut out, z_index as u128);
    extend_str(&mut out, "; width:480px; min-height:300px; --jitter-x:");
    push_signed(&mut out, jitter.0);
    extend_str(&mut out, "px; --jitter-y:");
    push_signed(&mut out, jitter.1);
    extend_str(&mut out, "px;");
    string_from_chars(out.as_slice())
}

/// The splash window comes forward by one level when focused.
pub fn raised(z_index: u32) -> (z: u32)
    requires
        z_index < u32::MAX,
    ensures
        z == z_index + 1,
{
    z_index + 1
}

/// Where the three music-player windows go: centred across a window of the
/// given width (never left of the edge), stacked down from `top`.
pub fn webamp_layout(top: i32, width: i32) -> (layout: [(i32, i32); 3])
    requires
        top + 232 <= i32::MAX,
        width - 275 >= i32::MIN,
    ensures
        ({
            let left = if (width - 275) / 2 > 0 {
                (width - 275) / 2
            } else {
                0
            };
            &&& layout@[0].0 == top && layout@[0].1 == left
            &&& layout@[1].0 == top + 116 && layout@[1].1 == left
            &&& layout@[2].0 == top + 232 && layout@[2].1 == left
        }),
{
    let half = (width - 275) / 2;
    let left = if half > 0 {
        half
    } else {
        0
    };
    [(top, left), (top + 116, left), (top + 232, left)]
}

// ── A project's window ──────────────────────────────────────────

/// A web build is launched; anything else is downloaded.
pub fn launch_label(launch_type: &str) -> (label: &'static str)
    ensures
        label@ == (if launch_type@ == "wasm"@ {
            "Launch"@
        } else {
            "Download"@
        }),
{
    let t = chars_of(launch_type);
    let w = chars_of("wasm");
    if chars_eq(t.as_slice(), w.as_slice()) {
        "Launch"
    } else {
        "Download"
    }
}

/// How a project's demo is shown.
#[derive(Clone, Debug, PartialEq)]
pub enum DemoKind {
    Video(String),
    Image(String),
    Placeholder,
}

/// A demo that is a video (`.mp4` or `.webm`) plays; any other is an image.
pub fn demo_kind(demo: Option<&str>) -> (k: DemoKind)
    ensures
        match demo {
            Some(url) => if ends_with(url@, ".mp4"@) || ends_with(url@, ".webm"@) {
                k matches DemoKind::Video(u) && u@ == url@
            } else {
                k matches DemoKind::Image(u) && u@ == url@
            },
            None => k is Placeholder,
        },
{
    match demo {
        Some(url) => {
            let u = chars_of(url);
            let mp4 = chars_of(".mp4");
            let webm = chars_of(".webm");
            if ends_with_exec(u.as_slice(), mp4.as_slice()) || ends_with_exec(
                u.as_slice(),
                webm.as_slice(),
            ) {
                DemoKind::Video(url.to_string())
            } else {
                DemoKind::Image(url.to_string())
            }
        },
        None => DemoKind::Placeholder,
    }
}

/// Names joined by `", "`.
pub open spec fn comma_joined(names: Seq<String>) -> Seq<char>
    decreases names.len(),
{
    if names.len() == 0 {
        seq![]
    } else if names.len() == 1 {
        names[0]@
    } else {
        comma_joined(names.drop_last()) + ", "@ + names.last()@
    }
}

/// The credit line of a project.
pub fn contributors_line(names: &[String]) -> (line: String)
    ensures
        line@ == "By: "@ + comma_joined(names@),
{
    let mut out: Vec<char> = Vec::new();
    extend_str(&mut out, "By: ");
    let mut i: usize = 0;
    while i < names.len()
        invariant
            i <= names.len(),
            out@ == "By: "@ + comma_joined(names@.take(i as int)),
        decreases names.len() - i,
    {
        proof {
            assert(names@.take(i + 1).drop_last() =~= names@.take(i as int));
            assert(names@.take(i + 1).last() == names@[i as int]);
        }
        if i > 0 {
            extend_str(&mut out, ", ");
        } else {
            assert(names@.take(1) =~= seq![names@[0]]);
        }
        extend_str(&mut out, names[i].as_str());
        i = i + 1;
        assert(out@ =~= "By: "@ + comma_joined(names@.take(i as int)));
    }
    assert(names@.take(names.len() as int) =~= names@);
    string_from_chars(out.as_slice())
}

/// A grey square of the given size that stands for a missing icon.
pub open spec fn placeholder_icon(size: Seq<char>) -> Seq<char> {
    "data:image/svg+xml,<svg xmlns='http://www.w3.org/2000/svg' width='"@ + size
        + "' height='"@ + size + "'><rect width='"@ + size + "' height='"@ + size
        + "' fill='%23808080'/></svg>"@
}

/// The icon of a technology, or a small grey square without one.
pub fn tech_icon_src(icon: &str) -> (src: String)
    ensures
        icon@.len() == 0 ==> src@ == placeholder_icon("16"@),
        icon@.len() > 0 ==> src@ == icon@,
{
    let cs = chars_of(icon);
    if cs.len() == 0 {
        proof {
            reveal_strlit("16");
            reveal_strlit("data:image/svg+xml,<svg xmlns='http://www.w3.org/2000/svg' width='16' height='16'><rect width='16' height='16' fill='%23808080'/></svg>");
            reveal_strlit("data:image/svg+xml,<svg xmlns='http://www.w3.org/2000/svg' width='");
            reveal_strlit("' height='");
            reveal_strlit("'><rect width='");
            reveal_strlit("' fill='%23808080'/></svg>");
            assert(placeholder_icon("16"@) =~= "data:image/svg+xml,<svg xmlns='http://www.w3.org/2000/svg' width='16' height='16'><rect width='16' height='16' fill='%23808080'/></svg>"@);
        }
        "data:image/svg+xml,<svg xmlns='http://www.w3.org/2000/svg' width='16' height='16'><rect width='16' height='16' fill='%23808080'/></svg>".to_string()
    } else {
        icon.to_string()
    }
}

/// The icon of a project on the desktop, or a large grey square without one.
pub fn game_icon_src(icon: &str) -> (src: String)
    ensures
        icon@.len() == 0 ==> src@ == placeholder_icon("48"@),
        icon@.len() > 0 ==> src@ == icon@,
{
    let cs = chars_of(icon);
    if cs.len() == 0 {
        proof {
            reveal_strlit("48");
            reveal_strlit("data:image/svg+xml,<svg xmlns='http://www.w3.org/2000/svg' width='48' height='48'><rect width='48' height='48' fill='%23808080'/></svg>");
            reveal_strlit("data:image/svg+xml,<svg xmlns='http://www.w3.org/2000/svg' width='");
            reveal_strlit("' height='");
            reveal_strlit("'><rect width='");
            reveal_strlit("' fill='%23808080'/></svg>");
            assert(placeholder_icon("48"@) =~= "data:image/svg+xml,<svg xmlns='http://www.w3.org/2000/svg' width='48' height='48'><rect width='48' height='48' fill='%23808080'/></svg>"@);
        }
        "data:image/svg+xml,<svg xmlns='http://www.w3.org/2000/svg' width='48' height='48'><rect width='48' height='48' fill='%23808080'/></svg>".to_string()
    } else {
        icon.to_string()
    }
}

} // verus!
