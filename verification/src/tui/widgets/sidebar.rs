//! The sidebar: project facts, the project structure (or an interactive
//! file browser over it) and the active skills, scrollable.
//!
//! The browser does not read the file system itself: when it needs the
//! listing of a directory it says so through [`SidebarWidget::listing_request`],
//! and the caller hands the entries back with [`SidebarWidget::apply_listing`].

use vstd::prelude::*;
use vstd::utf8::encode_utf8;
use crate::text::{chars_of, copy_chars, lower_chars, lowercase, string_of};
use crate::tui::event::{Event, Key, KeyEvent, Modifiers};
use crate::tui::layout::Rect;
use crate::tui::widget::{Action, Widget, truncate_str_width, width_prefix_len};
use crate::tui::widgets::status_bar::put_text;
use crate::tui::widget::styles;
use crate::tui::cell::{plain_style, Cell, Color, Style};
use crate::tui::screen::{
    fill_box, lemma_fill_box, lemma_same_rows_refl, lemma_same_rows_step, same_outside_rows, write_run, Screen, ScreenView,
};
use crate::tui::widgets::conversation::column_marked;
use crate::text::{push_str, string_push, trim, trim_chars};
use crate::unicode::{render_width, str_display_width, str_width, width_or_one};
use crate::tui::widget::ActionView;

verus! {

/// An entry of a directory listing.
#[derive(Clone, Debug)]
pub struct DirEntry {
    /// The file name.
    pub name: String,
    /// Whether the entry is a directory.
    pub is_dir: bool,
}

/// An entry as a name and a directory flag.
pub open spec fn entry_view(e: DirEntry) -> (Seq<char>, bool) {
    (e.name@, e.is_dir)
}

/// A listing as names and directory flags.
pub open spec fn entries_view(v: Seq<DirEntry>) -> Seq<(Seq<char>, bool)> {
    v.map_values(|e: DirEntry| entry_view(e))
}

/// The mathematical state of a sidebar.
pub struct SidebarState {
    pub project_name: Seq<char>,
    pub project_type: Seq<char>,
    pub git_branch: Option<Seq<char>>,
    pub build_command: Seq<char>,
    pub test_command: Seq<char>,
    pub structure: Seq<Seq<char>>,
    pub skills: Seq<(Seq<char>, Seq<char>)>,
    pub visible: bool,
    pub scroll_offset: nat,
    pub desired_width: u16,
    /// Whether the interactive file browser is shown.
    pub mode: bool,
    /// The browsed directory.
    pub cwd: Seq<char>,
    /// The directories left by entering a subdirectory, with their selection.
    pub nav: Seq<(Seq<char>, nat)>,
    /// The listing of the browsed directory.
    pub entries: Seq<(Seq<char>, bool)>,
    /// The selected position among the filtered entries.
    pub selected: nat,
    /// The first entry row in view.
    pub sscroll: nat,
    pub root: Seq<char>,
    pub show_hidden: bool,
    pub filter_active: bool,
    pub filter: Seq<char>,
    /// Whether the listing of `cwd` is awaited.
    pub pending: bool,
}

/// 1 when `x` holds, else 0.
pub open spec fn one_if(x: bool) -> int {
    if x { 1 } else { 0 }
}

/// Whether `n` occurs in `h` as a contiguous run.
pub open spec fn contains_sub(h: Seq<char>, n: Seq<char>) -> bool {
    exists|i: int| 0 <= i && i + n.len() <= h.len() && #[trigger] h.subrange(i, i + n.len()) == n
}

/// The entries whose lowercase name contains `f`, in order.
pub open spec fn matching(entries: Seq<(Seq<char>, bool)>, f: Seq<char>) -> Seq<(Seq<char>, bool)>
    decreases entries.len(),
{
    if entries.len() == 0 {
        Seq::empty()
    } else {
        let m = matching(entries.drop_last(), f);
        if contains_sub(lowercase(entries.last().0), f) {
            m.push(entries.last())
        } else {
            m
        }
    }
}

/// The entries shown: all of them without a filter, else those whose
/// name contains the filter, ignoring case.
pub open spec fn filtered(entries: Seq<(Seq<char>, bool)>, filter: Seq<char>) -> Seq<(Seq<char>, bool)> {
    if filter.len() == 0 {
        entries
    } else {
        matching(entries, lowercase(filter))
    }
}

/// The rows before the first structure entry: the project header, one row
/// per project fact present, a spacer, and the browser header in browser mode.
pub open spec fn items_before(s: SidebarState) -> int {
    1 + one_if(s.project_name.len() > 0) + one_if(s.project_type.len() > 0) + one_if(s.git_branch is Some)
        + one_if(s.build_command.len() > 0) + one_if(s.test_command.len() > 0) + 1 + one_if(s.mode)
}

/// The number of content rows: the project section, the structure or
/// browser section (header, entries, spacer; at least one browser row),
/// and the skills section.
pub open spec fn content_height(s: SidebarState) -> int {
    let project = 1 + one_if(s.project_name.len() > 0) + one_if(s.project_type.len() > 0)
        + one_if(s.git_branch is Some) + one_if(s.build_command.len() > 0) + one_if(s.test_command.len() > 0) + 1;
    let n = filtered(s.entries, s.filter).len() as int;
    let structure = if s.mode {
        1 + (if n > 1 { n } else { 1 }) + 1
    } else if s.structure.len() > 0 {
        1 + s.structure.len() as int + 1
    } else {
        0
    };
    let skills = if s.skills.len() > 0 { 1 + s.skills.len() as int } else { 0 };
    project + structure + skills
}

/// `a - b`, or 0 when `b > a`.
pub open spec fn sub0(a: int, b: int) -> int {
    if a > b { a - b } else { 0 }
}

/// Bring the selection into the entry window of twelve rows, keep it among
/// the filtered entries, and scroll the sidebar to the window's top (at most
/// to its last content row).
pub open spec fn ensure_visible(s: SidebarState) -> SidebarState {
    sync_scroll(clamp_selected(window_to_selection(s)))
}

/// Move the twelve-row entry window so that it holds the selection.
pub open spec fn window_to_selection(s: SidebarState) -> SidebarState {
    if s.selected < s.sscroll {
        SidebarState { sscroll: s.selected, ..s }
    } else if s.selected >= s.sscroll + 12 {
        SidebarState { sscroll: (s.selected - 12 + 1) as nat, ..s }
    } else {
        s
    }
}

/// Keep the selection among the shown entries.
pub open spec fn clamp_selected(s: SidebarState) -> SidebarState {
    let n = filtered(s.entries, s.filter).len();
    if n > 0 && s.selected >= n { SidebarState { selected: (n - 1) as nat, ..s } } else { s }
}

/// Scroll the sidebar to the top of the entry window, at most to its last row.
pub open spec fn sync_scroll(s: SidebarState) -> SidebarState {
    let off = items_before(s) + s.sscroll;
    let max = sub0(content_height(s), 1);
    SidebarState { scroll_offset: clamp_usize(if off > max { max } else { off }), ..s }
}

/// The path of `name` inside directory `dir`.
pub open spec fn join_path(dir: Seq<char>, name: Seq<char>) -> Seq<char> {
    if name.len() > 0 && name[0] == '/' {
        name
    } else if dir.len() == 0 {
        name
    } else if dir.last() == '/' {
        dir + name
    } else {
        dir + seq!['/'] + name
    }
}

/// Enter the directory `name`: remember where we were, start at its top
/// with no filter, and await its listing.
pub open spec fn enter_dir(s: SidebarState, name: Seq<char>) -> SidebarState {
    SidebarState {
        nav: s.nav.push((s.cwd, s.selected)),
        cwd: join_path(s.cwd, name),
        selected: 0,
        sscroll: 0,
        filter: Seq::empty(),
        pending: true,
        ..s
    }
}

/// Enter the selected entry when it is a directory.
pub open spec fn open_selected(s: SidebarState) -> SidebarState {
    let f = filtered(s.entries, s.filter);
    if s.selected < f.len() && f[s.selected as int].1 {
        enter_dir(s, f[s.selected as int].0)
    } else {
        s
    }
}

/// Move the selection up one entry.
pub open spec fn select_up(s: SidebarState) -> SidebarState {
    ensure_visible(if s.selected > 0 { SidebarState { selected: (s.selected - 1) as nat, ..s } } else { s })
}

/// Move the selection down one entry.
pub open spec fn select_down(s: SidebarState) -> SidebarState {
    let n = filtered(s.entries, s.filter).len();
    ensure_visible(if n > 0 && s.selected < n - 1 { SidebarState { selected: s.selected + 1, ..s } } else { s })
}

/// A key while the filter is being typed.
pub open spec fn filter_key(s: SidebarState, e: Event) -> SidebarState {
    match e {
        Event::Key(k) => {
            let plain = !k.modifiers.ctrl && !k.modifiers.alt;
            match k.key {
                Key::Escape => if plain { SidebarState { filter_active: false, ..s } } else { s },
                Key::Enter => if plain { open_selected(SidebarState { filter_active: false, ..s }) } else { s },
                Key::Backspace => SidebarState {
                    filter: if s.filter.len() > 0 { s.filter.drop_last() } else { s.filter },
                    selected: 0,
                    sscroll: 0,
                    ..s
                },
                Key::Char(ch) => if plain {
                    SidebarState { filter: s.filter.push(ch), selected: 0, sscroll: 0, ..s }
                } else {
                    s
                },
                Key::Up => if plain { select_up(s) } else { s },
                Key::Down => if plain { select_down(s) } else { s },
                _ => s,
            }
        },
        _ => s,
    }
}

/// Escape in the browser: back to the directory left last, or out of the
/// browser at its starting directory.
pub open spec fn go_back(s: SidebarState) -> (SidebarState, ActionView) {
    if s.nav.len() > 0 {
        let (prev, sel) = s.nav.last();
        (
            SidebarState {
                nav: s.nav.drop_last(),
                cwd: prev,
                selected: sel,
                sscroll: 0,
                filter: Seq::empty(),
                pending: true,
                ..s
            },
            ActionView::NoOp,
        )
    } else {
        (SidebarState { mode: false, ..s }, ActionView::ExitStructureMode)
    }
}

/// Page up: the selection moves up ten entries (to the first at most).
pub open spec fn page_up(s: SidebarState) -> SidebarState {
    ensure_visible(SidebarState { selected: (s.selected - (if s.selected < 10 { s.selected } else { 10 })) as nat, ..s })
}

/// Page down: the selection moves down ten entries (to the last at most).
pub open spec fn page_down(s: SidebarState) -> SidebarState {
    let n = filtered(s.entries, s.filter).len();
    if n > 0 {
        ensure_visible(SidebarState {
            selected: (if s.selected + 10 < n - 1 { (s.selected + 10) as int } else { n - 1 }) as nat,
            ..s
        })
    } else {
        s
    }
}

/// A key in the file browser (filter not being typed).
pub open spec fn browser_key(s: SidebarState, e: Event) -> (SidebarState, ActionView) {
    match e {
        Event::Key(k) => {
            let plain = !k.modifiers.ctrl && !k.modifiers.alt;
            let n = filtered(s.entries, s.filter).len();
            match k.key {
                Key::Up => if plain { (select_up(s), ActionView::NoOp) } else { (s, ActionView::NoOp) },
                Key::Down => if plain { (select_down(s), ActionView::NoOp) } else { (s, ActionView::NoOp) },
                Key::Enter => if plain { (open_selected(s), ActionView::NoOp) } else { (s, ActionView::NoOp) },
                Key::Escape => if plain { go_back(s) } else { (s, ActionView::NoOp) },
                Key::Char(ch) => if plain && ch == '/' {
                    (SidebarState { filter_active: true, filter: Seq::empty(), selected: 0, sscroll: 0, ..s }, ActionView::NoOp)
                } else if plain && ch == '.' {
                    (SidebarState { show_hidden: !s.show_hidden, selected: 0, sscroll: 0, pending: true, ..s }, ActionView::NoOp)
                } else {
                    (s, ActionView::NoOp)
                },
                Key::PageUp => (page_up(s), ActionView::NoOp),
                Key::PageDown => (page_down(s), ActionView::NoOp),
                Key::Home => (ensure_visible(SidebarState { selected: 0, ..s }), ActionView::NoOp),
                Key::End => if n > 0 {
                    (ensure_visible(SidebarState { selected: (n - 1) as nat, ..s }), ActionView::NoOp)
                } else {
                    (s, ActionView::NoOp)
                },
                _ => (s, ActionView::NoOp),
            }
        },
        _ => (s, ActionView::NoOp),
    }
}

/// `x` kept within the range of `usize`.
pub open spec fn clamp_usize(x: int) -> nat {
    if x < 0 { 0 } else if x > usize::MAX { usize::MAX as nat } else { x as nat }
}

/// Scroll the content by `delta` rows, saturating at both ends.
pub open spec fn scrolled(s: SidebarState, delta: int) -> SidebarState {
    SidebarState { scroll_offset: clamp_usize(s.scroll_offset + delta), ..s }
}

/// The sidebar's response to an event.
pub open spec fn sidebar_event(s: SidebarState, e: Event) -> (SidebarState, ActionView) {
    if s.mode {
        if s.filter_active {
            (filter_key(s, e), ActionView::NoOp)
        } else {
            browser_key(s, e)
        }
    } else {
        match e {
            Event::Key(k) => {
                let m = k.modifiers;
                match k.key {
                    Key::Tab => if !m.shift && !m.alt && !m.ctrl {
                        (s, ActionView::CycleFocusForward)
                    } else {
                        (s, ActionView::NoOp)
                    },
                    Key::BackTab => (s, ActionView::CycleFocusBackward),
                    Key::Up => if !m.alt && !m.ctrl { (scrolled(s, -1), ActionView::NoOp) } else { (s, ActionView::NoOp) },
                    Key::Down => if !m.alt && !m.ctrl { (scrolled(s, 1), ActionView::NoOp) } else { (s, ActionView::NoOp) },
                    Key::PageUp => (scrolled(s, -10), ActionView::NoOp),
                    Key::PageDown => (scrolled(s, 10), ActionView::NoOp),
                    Key::Home => (SidebarState { scroll_offset: 0, ..s }, ActionView::NoOp),
                    _ => (s, ActionView::NoOp),
                }
            },
            _ => (s, ActionView::NoOp),
        }
    }
}

// ── Listing order ────────────────────────────────────────────────────────────

/// Lexicographic order of character sequences by code point.
pub open spec fn lex_le(a: Seq<char>, b: Seq<char>) -> bool
    decreases a.len(),
{
    if a.len() == 0 {
        true
    } else if b.len() == 0 {
        false
    } else if a[0] != b[0] {
        a[0] < b[0]
    } else {
        lex_le(a.drop_first(), b.drop_first())
    }
}

/// The listing order: directories before files, each by lowercase name.
pub open spec fn entry_le(a: (Seq<char>, bool), b: (Seq<char>, bool)) -> bool {
    if a.1 && !b.1 {
        true
    } else if !a.1 && b.1 {
        false
    } else {
        lex_le(lowercase(a.0), lowercase(b.0))
    }
}

/// Whether a listing is in listing order.
pub open spec fn listing_sorted(v: Seq<(Seq<char>, bool)>) -> bool {
    forall|i: int, j: int| 0 <= i < j < v.len() ==> entry_le(#[trigger] v[i], #[trigger] v[j])
}

/// The entries shown of a raw listing: all, or those not starting with a
/// dot unless hidden files are shown.
pub open spec fn shown_entries(raw: Seq<(Seq<char>, bool)>, show_hidden: bool) -> Seq<(Seq<char>, bool)>
    decreases raw.len(),
{
    if raw.len() == 0 {
        Seq::empty()
    } else {
        let m = shown_entries(raw.drop_last(), show_hidden);
        if show_hidden || !seq!['.'].is_prefix_of(raw.last().0) {
            m.push(raw.last())
        } else {
            m
        }
    }
}

pub proof fn lemma_lex_total(a: Seq<char>, b: Seq<char>)
    ensures
        lex_le(a, b) || lex_le(b, a),
    decreases a.len(),
{
    if a.len() > 0 && b.len() > 0 {
        if a[0] == b[0] {
            lemma_lex_total(a.drop_first(), b.drop_first());
        } else {
            assert(a[0] < b[0] || b[0] < a[0]);
        }
    }
}

pub proof fn lemma_lex_trans(a: Seq<char>, b: Seq<char>, c: Seq<char>)
    requires
        lex_le(a, b),
        lex_le(b, c),
    ensures
        lex_le(a, c),
    decreases a.len(),
{
    if a.len() > 0 && b.len() > 0 && c.len() > 0 && a[0] == b[0] && b[0] == c[0] {
        lemma_lex_trans(a.drop_first(), b.drop_first(), c.drop_first());
    }
}

pub proof fn lemma_entry_total(a: (Seq<char>, bool), b: (Seq<char>, bool))
    ensures
        entry_le(a, b) || entry_le(b, a),
{
    lemma_lex_total(lowercase(a.0), lowercase(b.0));
}

pub proof fn lemma_entry_trans(a: (Seq<char>, bool), b: (Seq<char>, bool), c: (Seq<char>, bool))
    requires
        entry_le(a, b),
        entry_le(b, c),
    ensures
        entry_le(a, c),
{
    if a.1 == b.1 && b.1 == c.1 {
        lemma_lex_trans(lowercase(a.0), lowercase(b.0), lowercase(c.0));
    }
}

fn lex_le_exec(a: &[char], b: &[char]) -> (r: bool)
    ensures
        r == lex_le(a@, b@),
{
    let mut i: usize = 0;
    proof {
        assert(a@.skip(0) =~= a@);
        assert(b@.skip(0) =~= b@);
    }
    while i < a.len() && i < b.len() && a[i] == b[i]
        invariant
            i <= a@.len(),
            i <= b@.len(),
            lex_le(a@, b@) == lex_le(a@.skip(i as int), b@.skip(i as int)),
        decreases a@.len() - i,
    {
        proof {
            assert(a@.skip(i as int).drop_first() =~= a@.skip(i + 1));
            assert(b@.skip(i as int).drop_first() =~= b@.skip(i + 1));
        }
        i += 1;
    }
    if i == a.len() {
        true
    } else if i == b.len() {
        false
    } else {
        proof {
            assert(a@.skip(i as int)[0] == a@[i as int]);
            assert(b@.skip(i as int)[0] == b@[i as int]);
        }
        a[i] < b[i]
    }
}

fn entry_le_exec(a: &(Vec<char>, DirEntry), b: &(Vec<char>, DirEntry)) -> (r: bool)
    requires
        a.0@ == lowercase(a.1.name@),
        b.0@ == lowercase(b.1.name@),
    ensures
        r == entry_le(entry_view(a.1), entry_view(b.1)),
{
    if a.1.is_dir && !b.1.is_dir {
        true
    } else if !a.1.is_dir && b.1.is_dir {
        false
    } else {
        lex_le_exec(&a.0, &b.0)
    }
}

fn copy_entry(e: &DirEntry) -> (r: DirEntry)
    ensures
        entry_view(r) == entry_view(*e),
{
    DirEntry { name: e.name.as_str().to_owned(), is_dir: e.is_dir }
}

/// Whether two entries sort to the same place: each may be listed before
/// the other (the same kind and names equal ignoring case).
pub open spec fn same_place(a: (Seq<char>, bool), b: (Seq<char>, bool)) -> bool {
    entry_le(a, b) && entry_le(b, a)
}

/// The entries of `v` that sort to the same place as `k`, in their order in `v`.
pub open spec fn ties(v: Seq<(Seq<char>, bool)>, k: (Seq<char>, bool)) -> Seq<(Seq<char>, bool)>
    decreases v.len(),
{
    if v.len() == 0 {
        Seq::empty()
    } else {
        let t = ties(v.drop_last(), k);
        if same_place(v.last(), k) { t.push(v.last()) } else { t }
    }
}

/// Whether `output` keeps the order that `input` gives entries sorting to
/// the same place (the sort is stable).
pub open spec fn keeps_ties(input: Seq<(Seq<char>, bool)>, output: Seq<(Seq<char>, bool)>) -> bool {
    forall|k: (Seq<char>, bool)| #[trigger] ties(output, k) == ties(input, k)
}

proof fn lemma_ties_add(a: Seq<(Seq<char>, bool)>, b: Seq<(Seq<char>, bool)>, k: (Seq<char>, bool))
    ensures
        ties(a + b, k) == ties(a, k) + ties(b, k),
    decreases b.len(),
{
    if b.len() == 0 {
        assert(a + b =~= a);
        assert(ties(a, k) + ties(b, k) =~= ties(a, k));
    } else {
        assert((a + b).drop_last() =~= a + b.drop_last());
        assert((a + b).last() == b.last());
        lemma_ties_add(a, b.drop_last(), k);
        if same_place(b.last(), k) {
            assert(ties(a, k) + ties(b.drop_last(), k).push(b.last()) =~= (ties(a, k) + ties(b.drop_last(), k)).push(b.last()));
        }
    }
}

proof fn lemma_ties_none(v: Seq<(Seq<char>, bool)>, k: (Seq<char>, bool))
    requires
        forall|j: int| 0 <= j < v.len() ==> !same_place(#[trigger] v[j], k),
    ensures
        ties(v, k) == Seq::<(Seq<char>, bool)>::empty(),
    decreases v.len(),
{
    if v.len() > 0 {
        lemma_ties_none(v.drop_last(), k);
    }
}

/// Inserting `x` into a sorted listing after every entry listed no later
/// than it keeps the ties of the listing with `x` appended.
proof fn lemma_insert_keeps_ties(kv: Seq<(Seq<char>, bool)>, x: (Seq<char>, bool), p: int, k: (Seq<char>, bool))
    requires
        listing_sorted(kv),
        0 <= p <= kv.len(),
        forall|j: int| 0 <= j < p ==> entry_le(#[trigger] kv[j], x),
        p < kv.len() ==> !entry_le(kv[p], x),
    ensures
        ties(kv.insert(p, x), k) == ties(kv.push(x), k),
{
    let a = kv.take(p);
    let b = kv.skip(p);
    assert(kv.insert(p, x) =~= a + seq![x] + b);
    assert(kv =~= a + b);
    lemma_ties_add(a + seq![x], b, k);
    lemma_ties_add(a, seq![x], k);
    lemma_ties_add(a, b, k);
    assert(seq![x].drop_last() =~= Seq::<(Seq<char>, bool)>::empty());
    assert(seq![x].last() == x);
    assert(ties(Seq::<(Seq<char>, bool)>::empty(), k) == Seq::<(Seq<char>, bool)>::empty());
    assert(ties(seq![x], k) == (if same_place(x, k) { Seq::<(Seq<char>, bool)>::empty().push(x) } else { Seq::<(Seq<char>, bool)>::empty() }));
    assert(kv.push(x).last() == x);
    if same_place(x, k) {
        assert forall|j: int| 0 <= j < b.len() implies !same_place(#[trigger] b[j], k) by {
            assert(b[j] == kv[p + j]);
            if entry_le(b[j], x) {
                if j > 0 {
                    lemma_entry_trans(kv[p], b[j], x);
                }
            }
            if same_place(b[j], k) {
                lemma_entry_trans(b[j], k, x);
            }
        }
        lemma_ties_none(b, k);
        assert(kv.push(x).drop_last() =~= kv);
        assert(ties(kv.push(x), k) == ties(kv, k).push(x));
        assert(ties(a, k) + Seq::<(Seq<char>, bool)>::empty().push(x) + Seq::<(Seq<char>, bool)>::empty()
            =~= (ties(a, k) + Seq::<(Seq<char>, bool)>::empty()).push(x));
    } else {
        assert(kv.push(x).drop_last() =~= kv);
        assert(ties(kv.push(x), k) == ties(kv, k));
        assert(ties(a, k) + Seq::<(Seq<char>, bool)>::empty() =~= ties(a, k));
    }
}

/// The shown entries of `raw` in listing order: directories first, then
/// files, each by lowercase name, entries sorting to the same place in their
/// order in `raw`; names starting with a dot are left out unless `show_hidden`.
pub fn sort_listing(raw: &Vec<DirEntry>, show_hidden: bool) -> (r: Vec<DirEntry>)
    ensures
        listing_sorted(entries_view(r@)),
        entries_view(r@).to_multiset() == shown_entries(entries_view(raw@), show_hidden).to_multiset(),
        keeps_ties(shown_entries(entries_view(raw@), show_hidden), entries_view(r@)),
{
    let mut keyed: Vec<(Vec<char>, DirEntry)> = Vec::new();
    let ghost mut shown: Seq<(Seq<char>, bool)> = Seq::empty();
    proof {
        assert(entries_view(raw@.take(0)) =~= Seq::<(Seq<char>, bool)>::empty());
        assert(entries_view(keyed@.map_values(|p: (Vec<char>, DirEntry)| p.1)) =~= shown);
    }
    for i in 0..raw.len()
        invariant
            shown == shown_entries(entries_view(raw@.take(i as int)), show_hidden),
            forall|j: int| 0 <= j < keyed@.len() ==> #[trigger] keyed@[j].0@ == lowercase(keyed@[j].1.name@),
            listing_sorted(entries_view(keyed@.map_values(|p: (Vec<char>, DirEntry)| p.1))),
            entries_view(keyed@.map_values(|p: (Vec<char>, DirEntry)| p.1)).to_multiset() == shown.to_multiset(),
            keeps_ties(shown, entries_view(keyed@.map_values(|p: (Vec<char>, DirEntry)| p.1))),
    {
        let ghost kv = entries_view(keyed@.map_values(|p: (Vec<char>, DirEntry)| p.1));
        proof {
            assert(entries_view(raw@.take(i + 1)).drop_last() =~= entries_view(raw@.take(i as int)));
            assert(entries_view(raw@.take(i + 1)).last() == entry_view(raw@[i as int]));
        }
        let name = chars_of(raw[i].name.as_str());
        let hidden = name.len() > 0 && name[0] == '.';
        proof {
            if name@.len() > 0 {
                if name@[0] == '.' {
                    assert(seq!['.'] =~= name@.subrange(0, 1));
                } else {
                    assert(seq!['.'][0] != name@.subrange(0, 1)[0]);
                }
            }
        }
        if show_hidden || !hidden {
            let item = (lower_chars(&name), copy_entry(&raw[i]));
            let ghost x = entry_view(item.1);
            let mut p: usize = 0;
            while p < keyed.len() && entry_le_exec(&keyed[p], &item)
                invariant
                    p <= keyed@.len(),
                    kv == entries_view(keyed@.map_values(|q: (Vec<char>, DirEntry)| q.1)),
                    forall|j: int| 0 <= j < keyed@.len() ==> #[trigger] keyed@[j].0@ == lowercase(keyed@[j].1.name@),
                    item.0@ == lowercase(item.1.name@),
                    x == entry_view(item.1),
                    forall|j: int| 0 <= j < p ==> entry_le(#[trigger] kv[j], x),
                decreases keyed@.len() - p,
            {
                p += 1;
            }
            let ghost old_keyed = keyed@;
            keyed.insert(p, item);
            proof {
                let nv = entries_view(keyed@.map_values(|q: (Vec<char>, DirEntry)| q.1));
                assert(nv =~= kv.insert(p as int, x));
                if p < kv.len() {
                    assert(!entry_le(kv[p as int], x));
                }
                assert forall|a: int, b: int| 0 <= a < b < nv.len() implies entry_le(#[trigger] nv[a], #[trigger] nv[b]) by {
                    if a < p && b == p {
                    } else if a == p && b > p {
                        assert(nv[b] == kv[b - 1]);
                        assert(!entry_le(kv[b - 1], x)) by {
                            if entry_le(kv[b - 1], x) {
                                lemma_entry_trans(kv[p as int], kv[b - 1], x);
                            }
                        }
                        lemma_entry_total(x, kv[b - 1]);
                    } else if a < p && b > p {
                        assert(nv[b] == kv[b - 1]);
                    } else if a > p {
                        assert(nv[a] == kv[a - 1]);
                        assert(nv[b] == kv[b - 1]);
                    }
                }
                let ins = kv.insert(p as int, x);
                assert(ins.remove(p as int) =~= kv);
                vstd::seq_lib::to_multiset_remove(ins, p as int);
                assert(ins.to_multiset().count(x) > 0) by {
                    vstd::seq_lib::to_multiset_contains(ins, x);
                    assert(ins[p as int] == x);
                }
                assert(ins.to_multiset() =~= kv.to_multiset().insert(x));
                vstd::seq_lib::to_multiset_build(shown, x);
                assert forall|k: (Seq<char>, bool)| #[trigger] ties(nv, k) == ties(shown.push(x), k) by {
                    lemma_insert_keeps_ties(kv, x, p as int, k);
                    assert(kv.push(x).drop_last() =~= kv);
                    assert(shown.push(x).drop_last() =~= shown);
                    assert(ties(kv, k) == ties(shown, k));
                }
                shown = shown.push(x);
            }
        }
    }
    proof {
        assert(raw@.take(raw@.len() as int) =~= raw@);
    }
    let mut r: Vec<DirEntry> = Vec::new();
    let n = keyed.len();
    let ghost kv = entries_view(keyed@.map_values(|q: (Vec<char>, DirEntry)| q.1));
    for j in 0..n
        invariant
            n == keyed@.len(),
            kv == entries_view(keyed@.map_values(|q: (Vec<char>, DirEntry)| q.1)),
            entries_view(r@) == kv.take(j as int),
    {
        let e = copy_entry(&keyed[j].1);
        let ghost prev = r@;
        r.push(e);
        proof {
            assert(entries_view(prev.push(e)) =~= entries_view(prev).push(entry_view(e)));
            assert(kv.take(j + 1) =~= kv.take(j as int).push(kv[j as int]));
        }
    }
    proof {
        assert(kv.take(n as int) =~= kv);
    }
    r
}

/// The sidebar with the file browser opened at the workspace root, with no
/// selection offset or filter and its listing awaited; unchanged when the
/// browser is already open.
pub open spec fn entered_structure(s: SidebarState) -> SidebarState {
    if s.mode {
        s
    } else {
        SidebarState {
            mode: true,
            cwd: s.root,
            nav: Seq::empty(),
            selected: 0,
            sscroll: 0,
            filter: Seq::empty(),
            filter_active: false,
            pending: true,
            ..s
        }
    }
}

// ── The widget ───────────────────────────────────────────────────────────────

/// The sidebar widget.
pub struct SidebarWidget {
    pub project_name: String,
    pub project_type: String,
    pub git_branch: Option<String>,
    pub build_command: String,
    pub test_command: String,
    /// Top-level entries of the project ("dir/  (children)" or "file").
    pub structure: Vec<String>,
    /// Active skills: name and description.
    pub active_skills: Vec<(String, String)>,
    pub visible: bool,
    scroll_offset: usize,
    /// Desired width in columns.
    pub desired_width: u16,
    structure_mode: bool,
    structure_cwd: String,
    structure_nav_stack: Vec<(String, usize)>,
    structure_entries: Vec<DirEntry>,
    structure_selected: usize,
    structure_scroll: usize,
    workspace_root: String,
    show_hidden: bool,
    structure_filter_active: bool,
    structure_filter: Vec<char>,
    listing_pending: bool,
}

/// Strings as character sequences.
pub open spec fn str_seqs(v: Seq<String>) -> Seq<Seq<char>> {
    v.map_values(|s: String| s@)
}

impl View for SidebarWidget {
    type V = SidebarState;

    closed spec fn view(&self) -> SidebarState {
        SidebarState {
            project_name: self.project_name@,
            project_type: self.project_type@,
            git_branch: match self.git_branch {
                Some(b) => Some(b@),
                None => None,
            },
            build_command: self.build_command@,
            test_command: self.test_command@,
            structure: str_seqs(self.structure@),
            skills: self.active_skills@.map_values(|p: (String, String)| (p.0@, p.1@)),
            visible: self.visible,
            scroll_offset: self.scroll_offset as nat,
            desired_width: self.desired_width,
            mode: self.structure_mode,
            cwd: self.structure_cwd@,
            nav: self.structure_nav_stack@.map_values(|p: (String, usize)| (p.0@, p.1 as nat)),
            entries: entries_view(self.structure_entries@),
            selected: self.structure_selected as nat,
            sscroll: self.structure_scroll as nat,
            root: self.workspace_root@,
            show_hidden: self.show_hidden,
            filter_active: self.structure_filter_active,
            filter: self.structure_filter@,
            pending: self.listing_pending,
        }
    }
}

fn contains_sub_exec(h: &[char], n: &[char]) -> (r: bool)
    ensures
        r == contains_sub(h@, n@),
{
    let hl = h.len();
    if n.len() > hl {
        return false;
    }
    if n.len() == 0 {
        proof {
            assert(h@.subrange(0, 0 + n@.len() as int) =~= n@);
        }
        return true;
    }
    let last = hl - n.len();
    let mut i: usize = 0;
    while i <= last
        invariant
            hl == h@.len(),
            n@.len() > 0,
            last == h@.len() - n@.len(),
            i <= last + 1,
            forall|k: int| 0 <= k < i ==> #[trigger] h@.subrange(k, k + n@.len()) != n@,
        decreases last + 1 - i,
    {
        let mut j: usize = 0;
        let mut same = true;
        while j < n.len()
            invariant
                i <= last,
                hl == h@.len(),
                last == h@.len() - n@.len(),
                j <= n@.len(),
                same == (forall|t: int| 0 <= t < j ==> h@[i + t] == n@[t]),
            decreases n@.len() - j,
        {
            if h[i + j] != n[j] {
                same = false;
            }
            j += 1;
        }
        if same {
            proof {
                assert(h@.subrange(i as int, i + n@.len()) =~= n@);
            }
            return true;
        }
        proof {
            let t = choose|t: int| 0 <= t < n@.len() && h@[i + t] != n@[t];
            assert(h@.subrange(i as int, i + n@.len())[t] != n@[t]);
        }
        i += 1;
    }
    proof {
        assert forall|k: int| 0 <= k && k + n@.len() <= h@.len() implies #[trigger] h@.subrange(k, k + n@.len()) != n@ by {
            assert(k < i);
        }
    }
    false
}

impl SidebarWidget {
    /// A visible sidebar with no content, whose file browser starts at `root`.
    pub fn new(root: &str) -> (r: Self)
        ensures
            r@.visible,
            r@.project_name.len() == 0,
            r@.project_type.len() == 0,
            r@.git_branch is None,
            r@.build_command.len() == 0,
            r@.test_command.len() == 0,
            r@.structure.len() == 0,
            r@.skills.len() == 0,
            r@.scroll_offset == 0,
            r@.desired_width == 25,
            !r@.mode,
            r@.cwd == root@,
            r@.nav.len() == 0,
            r@.entries.len() == 0,
            r@.selected == 0,
            r@.sscroll == 0,
            r@.root == root@,
            !r@.show_hidden,
            !r@.filter_active,
            r@.filter.len() == 0,
            !r@.pending,
    {
        let r = SidebarWidget {
            project_name: String::new(),
            project_type: String::new(),
            git_branch: None,
            build_command: String::new(),
            test_command: String::new(),
            structure: Vec::new(),
            active_skills: Vec::new(),
            visible: true,
            scroll_offset: 0,
            desired_width: 25,
            structure_mode: false,
            structure_cwd: root.to_owned(),
            structure_nav_stack: Vec::new(),
            structure_entries: Vec::new(),
            structure_selected: 0,
            structure_scroll: 0,
            workspace_root: root.to_owned(),
            show_hidden: false,
            structure_filter_active: false,
            structure_filter: Vec::new(),
            listing_pending: false,
        };
        r
    }

    /// Open the file browser at the workspace root (if it is not open),
    /// with no selection offset or filter; its listing is then awaited.
    pub fn enter_structure_mode(&mut self)
        ensures
            final(self)@ == entered_structure(old(self)@),
            old(self)@.mode ==> final(self)@ == old(self)@,
            !old(self)@.mode ==> final(self)@ == (SidebarState {
                mode: true,
                cwd: old(self)@.root,
                nav: Seq::empty(),
                selected: 0,
                sscroll: 0,
                filter: Seq::empty(),
                filter_active: false,
                pending: true,
                ..old(self)@
            }),
    {
        if !self.structure_mode {
            self.structure_mode = true;
            self.structure_cwd = self.workspace_root.as_str().to_owned();
            self.structure_nav_stack = Vec::new();
            self.structure_selected = 0;
            self.structure_scroll = 0;
            self.structure_filter = Vec::new();
            self.structure_filter_active = false;
            self.listing_pending = true;
            proof {
                assert(self@.nav =~= Seq::<(Seq<char>, nat)>::empty());
                assert(self@.filter =~= Seq::<char>::empty());
            }
        }
    }

    /// Set the project facts shown in the project section.
    pub fn set_project(
        &mut self,
        name: String,
        project_type: String,
        git_branch: Option<String>,
        build_command: String,
        test_command: String,
    )
        ensures
            final(self)@ == (SidebarState {
                project_name: name@,
                project_type: project_type@,
                git_branch: match git_branch {
                    Some(b) => Some(b@),
                    None => None,
                },
                build_command: build_command@,
                test_command: test_command@,
                ..old(self)@
            }),
    {
        self.project_name = name;
        self.project_type = project_type;
        self.git_branch = git_branch;
        self.build_command = build_command;
        self.test_command = test_command;
    }

    /// Set the top-level entries of the structure summary.
    pub fn set_structure(&mut self, structure: Vec<String>)
        ensures
            final(self)@ == (SidebarState { structure: str_seqs(structure@), ..old(self)@ }),
    {
        self.structure = structure;
    }

    /// Set the active skills, each a name and a description.
    pub fn set_active_skills(&mut self, skills: Vec<(String, String)>)
        ensures
            final(self)@ == (SidebarState { skills: skills@.map_values(|p: (String, String)| (p.0@, p.1@)), ..old(self)@ }),
    {
        self.active_skills = skills;
    }

    /// Show or hide the sidebar.
    pub fn set_visible(&mut self, visible: bool)
        ensures
            final(self)@ == (SidebarState { visible, ..old(self)@ }),
    {
        self.visible = visible;
    }

    /// Close the file browser.
    pub fn exit_structure_mode(&mut self)
        ensures
            final(self)@ == (SidebarState { mode: false, ..old(self)@ }),
    {
        self.structure_mode = false;
    }

    /// Whether the file browser is open.
    pub fn is_structure_mode(&self) -> (r: bool)
        ensures
            r == self@.mode,
    {
        self.structure_mode
    }

    /// Set the directory the file browser starts at.
    pub fn set_workspace_root(&mut self, path: &str)
        ensures
            final(self)@ == (SidebarState { root: path@, ..old(self)@ }),
    {
        self.workspace_root = path.to_owned();
    }

    /// Scroll up by `n` rows (not above the top).
    pub fn scroll_up(&mut self, n: usize)
        ensures
            final(self)@ == scrolled(old(self)@, -(n as int)),
    {
        self.scroll_offset = if self.scroll_offset > n { self.scroll_offset - n } else { 0 };
    }

    /// Scroll down by `n` rows (saturating).
    pub fn scroll_down(&mut self, n: usize)
        ensures
            final(self)@ == scrolled(old(self)@, n as int),
    {
        self.scroll_offset = if self.scroll_offset <= usize::MAX - n { self.scroll_offset + n } else { usize::MAX };
    }

    /// Scroll to the top.
    pub fn scroll_home(&mut self)
        ensures
            final(self)@ == (SidebarState { scroll_offset: 0, ..old(self)@ }),
    {
        self.scroll_offset = 0;
    }

    /// The scroll offset in rows.
    pub fn scroll_offset(&self) -> (r: usize)
        ensures
            r == self@.scroll_offset,
    {
        self.scroll_offset
    }

    /// The selected position among the shown entries.
    pub fn structure_selected(&self) -> (r: usize)
        ensures
            r == self@.selected,
    {
        self.structure_selected
    }

    /// Select the shown entry at `i`.
    pub fn set_structure_selected(&mut self, i: usize)
        ensures
            final(self)@ == (SidebarState { selected: i as nat, ..old(self)@ }),
    {
        self.structure_selected = i;
    }

    /// Whether hidden files are listed.
    pub fn show_hidden(&self) -> (r: bool)
        ensures
            r == self@.show_hidden,
    {
        self.show_hidden
    }

    /// Whether the filter is being typed.
    pub fn is_filter_active(&self) -> (r: bool)
        ensures
            r == self@.filter_active,
    {
        self.structure_filter_active
    }

    /// Start or stop typing the filter.
    pub fn set_filter_active(&mut self, active: bool)
        ensures
            final(self)@ == (SidebarState { filter_active: active, ..old(self)@ }),
    {
        self.structure_filter_active = active;
    }

    /// The filter text.
    pub fn structure_filter(&self) -> (r: String)
        ensures
            r@ == self@.filter,
    {
        string_of(&self.structure_filter)
    }

    /// Replace the filter text.
    pub fn set_structure_filter(&mut self, filter: &str)
        ensures
            final(self)@ == (SidebarState { filter: filter@, ..old(self)@ }),
    {
        self.structure_filter = chars_of(filter);
    }

    /// The browsed directory.
    pub fn structure_cwd(&self) -> (r: &str)
        ensures
            r@ == self@.cwd,
    {
        self.structure_cwd.as_str()
    }

    /// The listing of the browsed directory, in listing order.
    pub fn structure_entries(&self) -> (r: Vec<DirEntry>)
        ensures
            entries_view(r@) == self@.entries,
    {
        let mut r: Vec<DirEntry> = Vec::new();
        for i in 0..self.structure_entries.len()
            invariant
                entries_view(r@) == self@.entries.take(i as int),
        {
            let e = copy_entry(&self.structure_entries[i]);
            let ghost prev = r@;
            r.push(e);
            proof {
                assert(entries_view(prev.push(e)) =~= entries_view(prev).push(entry_view(e)));
                assert(self@.entries.take(i + 1) =~= self@.entries.take(i as int).push(self@.entries[i as int]));
            }
        }
        proof {
            assert(self@.entries.take(self@.entries.len() as int) =~= self@.entries);
        }
        r
    }

    /// Replace the listing as it is (no sorting or hiding).
    pub fn set_structure_entries(&mut self, entries: Vec<DirEntry>)
        ensures
            final(self)@ == (SidebarState { entries: entries_view(entries@), ..old(self)@ }),
    {
        self.structure_entries = entries;
    }

    /// The directory whose listing is awaited, and whether hidden files are
    /// to be listed.
    pub fn listing_request(&self) -> (r: Option<(String, bool)>)
        ensures
            self@.pending ==> (r matches Some(p) && p.0@ == self@.cwd && p.1 == self@.show_hidden),
            !self@.pending ==> r is None,
    {
        if self.listing_pending {
            Some((self.structure_cwd.as_str().to_owned(), self.show_hidden))
        } else {
            None
        }
    }

    /// Take the listing of the browsed directory: the shown entries in
    /// listing order (see [`sort_listing`]); the selection is kept among
    /// them and the entry window does not start below it.
    pub fn apply_listing(&mut self, raw: Vec<DirEntry>)
        ensures
            listing_sorted(final(self)@.entries),
            final(self)@.entries.to_multiset() == shown_entries(entries_view(raw@), old(self)@.show_hidden).to_multiset(),
            keeps_ties(shown_entries(entries_view(raw@), old(self)@.show_hidden), final(self)@.entries),
            final(self)@.selected == (if final(self)@.entries.len() > 0 {
                if old(self)@.selected < final(self)@.entries.len() { old(self)@.selected } else { (final(self)@.entries.len() - 1) as nat }
            } else {
                0
            }),
            final(self)@.sscroll == (if old(self)@.sscroll > final(self)@.selected { final(self)@.selected } else { old(self)@.sscroll }),
            !final(self)@.pending,
            final(self)@ == (SidebarState {
                entries: final(self)@.entries,
                selected: final(self)@.selected,
                sscroll: final(self)@.sscroll,
                pending: false,
                ..old(self)@
            }),
    {
        self.structure_entries = sort_listing(&raw, self.show_hidden);
        let n = self.structure_entries.len();
        if n > 0 {
            if self.structure_selected >= n {
                self.structure_selected = n - 1;
            }
        } else {
            self.structure_selected = 0;
        }
        if self.structure_scroll > self.structure_selected {
            self.structure_scroll = self.structure_selected;
        }
        self.listing_pending = false;
    }

    /// The shown entries: all, or those whose name contains the filter
    /// ignoring case.
    pub fn filtered_entries(&self) -> (r: Vec<DirEntry>)
        ensures
            entries_view(r@) == filtered(self@.entries, self@.filter),
    {
        if self.structure_filter.len() == 0 {
            return self.structure_entries();
        }
        let f = lower_chars(&self.structure_filter);
        let mut r: Vec<DirEntry> = Vec::new();
        let ghost ev = self@.entries;
        proof {
            assert(entries_view(r@) =~= matching(ev.take(0), f@));
        }
        for i in 0..self.structure_entries.len()
            invariant
                ev == self@.entries,
                f@ == lowercase(self@.filter),
                entries_view(r@) == matching(ev.take(i as int), f@),
        {
            proof {
                assert(ev.take(i + 1).drop_last() =~= ev.take(i as int));
                assert(ev.take(i + 1).last() == entry_view(self.structure_entries@[i as int]));
            }
            let name = chars_of(self.structure_entries[i].name.as_str());
            let lname = lower_chars(&name);
            if contains_sub_exec(&lname, &f) {
                let e = copy_entry(&self.structure_entries[i]);
                let ghost prev = r@;
                r.push(e);
                proof {
                    assert(entries_view(prev.push(e)) =~= entries_view(prev).push(entry_view(e)));
                }
            }
        }
        proof {
            assert(ev.take(ev.len() as int) =~= ev);
        }
        r
    }

    /// The rows before the first browser entry (see [`items_before`]).
    pub fn count_items_before_structure(&self) -> (n: usize)
        ensures
            n == items_before(self@),
    {
        let mut n: usize = 1;
        if self.project_name.as_str().is_empty() == false { n += 1; }
        if self.project_type.as_str().is_empty() == false { n += 1; }
        if self.git_branch.is_some() { n += 1; }
        if self.build_command.as_str().is_empty() == false { n += 1; }
        if self.test_command.as_str().is_empty() == false { n += 1; }
        n += 1;
        if self.structure_mode { n += 1; }
        n
    }

    /// The number of content rows (see [`content_height`]).
    pub fn content_height(&self) -> (n: u128)
        ensures
            n == content_height(self@),
    {
        let before = self.count_items_before_structure() as u128;
        let base: u128 = if self.structure_mode { before - 1 } else { before };
        let mid: u128 = if self.structure_mode {
            let k = self.filtered_entries().len() as u128;
            2 + (if k > 1 { k } else { 1 })
        } else if self.structure.len() > 0 {
            2 + self.structure.len() as u128
        } else {
            0
        };
        let skills: u128 = if self.active_skills.len() > 0 { 1 + self.active_skills.len() as u128 } else { 0 };
        proof {
            assert(self@.structure.len() == self.structure@.len());
            assert(self@.skills.len() == self.active_skills@.len());
        }
        base + mid + skills
    }

    fn window_to_selection(&mut self)
        ensures
            final(self)@ == window_to_selection(old(self)@),
    {
        if self.structure_selected < self.structure_scroll {
            self.structure_scroll = self.structure_selected;
        } else if self.structure_selected as u128 >= self.structure_scroll as u128 + 12 {
            self.structure_scroll = self.structure_selected - 11;
        }
    }

    fn clamp_selected(&mut self)
        ensures
            final(self)@ == clamp_selected(old(self)@),
    {
        let n = self.filtered_entries().len();
        if n > 0 && self.structure_selected >= n {
            self.structure_selected = n - 1;
        }
    }

    fn sync_scroll(&mut self)
        ensures
            final(self)@ == sync_scroll(old(self)@),
    {
        let off: u128 = self.count_items_before_structure() as u128 + self.structure_scroll as u128;
        let total = self.content_height();
        let max: u128 = if total > 1 { total - 1 } else { 0 };
        let v = if off > max { max } else { off };
        self.scroll_offset = if v > usize::MAX as u128 { usize::MAX } else { v as usize };
    }

    fn ensure_selected_visible(&mut self)
        ensures
            final(self)@ == ensure_visible(old(self)@),
    {
        self.window_to_selection();
        self.clamp_selected();
        self.sync_scroll();
    }
}

// ── Events ───────────────────────────────────────────────────────────────────

fn join_path_exec(dir: &str, name: &str) -> (r: String)
    ensures
        r@ == join_path(dir@, name@),
{
    let n = chars_of(name);
    let d = chars_of(dir);
    if n.len() > 0 && n[0] == '/' {
        name.to_owned()
    } else if d.len() == 0 {
        name.to_owned()
    } else {
        let mut r = dir.to_owned();
        if d[d.len() - 1] != '/' {
            crate::text::string_push(&mut r, '/');
        }
        crate::text::push_str(&mut r, name);
        proof {
            assert(d@.last() == d@[d@.len() - 1]);
            if d@.last() != '/' {
                assert(r@ =~= dir@ + seq!['/'] + name@);
            }
        }
        r
    }
}

impl SidebarWidget {
    fn enter_dir(&mut self, name: &str)
        ensures
            final(self)@ == enter_dir(old(self)@, name@),
    {
        let prev = self.structure_cwd.as_str().to_owned();
        let sel = self.structure_selected;
        let ghost old_nav = self.structure_nav_stack@;
        self.structure_nav_stack.push((prev, sel));
        self.structure_cwd = join_path_exec(self.structure_cwd.as_str(), name);
        self.structure_selected = 0;
        self.structure_scroll = 0;
        self.structure_filter = Vec::new();
        self.listing_pending = true;
        proof {
            assert(self@.nav =~= old(self)@.nav.push((old(self)@.cwd, old(self)@.selected)));
            assert(self@.filter =~= Seq::<char>::empty());
        }
    }

    fn open_selected(&mut self)
        ensures
            final(self)@ == open_selected(old(self)@),
    {
        let f = self.filtered_entries();
        let sel = self.structure_selected;
        if sel < f.len() && f[sel].is_dir {
            proof {
                assert(entries_view(f@)[sel as int] == entry_view(f@[sel as int]));
            }
            self.enter_dir(f[sel].name.as_str());
        }
    }

    fn select_up(&mut self)
        ensures
            final(self)@ == select_up(old(self)@),
    {
        if self.structure_selected > 0 {
            self.structure_selected = self.structure_selected - 1;
        }
        self.ensure_selected_visible();
    }

    fn select_down(&mut self)
        ensures
            final(self)@ == select_down(old(self)@),
    {
        let n = self.filtered_entries().len();
        if n > 0 && self.structure_selected < n - 1 {
            self.structure_selected = self.structure_selected + 1;
        }
        self.ensure_selected_visible();
    }

    fn handle_filter_key(&mut self, event: &Event)
        ensures
            final(self)@ == filter_key(old(self)@, *event),
    {
        if let Event::Key(k) = event {
            let plain = !k.modifiers.ctrl && !k.modifiers.alt;
            match k.key {
                Key::Escape => {
                    if plain {
                        self.structure_filter_active = false;
                    }
                },
                Key::Enter => {
                    if plain {
                        self.structure_filter_active = false;
                        self.open_selected();
                    }
                },
                Key::Backspace => {
                    self.structure_filter.pop();
                    self.structure_selected = 0;
                    self.structure_scroll = 0;
                },
                Key::Char(ch) => {
                    if plain {
                        self.structure_filter.push(ch);
                        self.structure_selected = 0;
                        self.structure_scroll = 0;
                    }
                },
                Key::Up => {
                    if plain {
                        self.select_up();
                    }
                },
                Key::Down => {
                    if plain {
                        self.select_down();
                    }
                },
                _ => {},
            }
        }
    }

    fn go_back(&mut self) -> (r: Action)
        ensures
            (final(self)@, r@) == go_back(old(self)@),
    {
        let ghost nav0 = self.structure_nav_stack@;
        match self.structure_nav_stack.pop() {
            Some((prev, sel)) => {
                self.structure_cwd = prev;
                self.structure_selected = sel;
                self.structure_scroll = 0;
                self.structure_filter = Vec::new();
                self.listing_pending = true;
                proof {
                    assert(self@.nav =~= old(self)@.nav.drop_last());
                    assert(old(self)@.nav.last() == (nav0.last().0@, nav0.last().1 as nat));
                    assert(self@.filter =~= Seq::<char>::empty());
                }
                Action::NoOp
            },
            None => {
                self.structure_mode = false;
                Action::ExitStructureMode
            },
        }
    }

    fn page_up(&mut self)
        ensures
            final(self)@ == page_up(old(self)@),
    {
        let step = if self.structure_selected < 10 { self.structure_selected } else { 10 };
        self.structure_selected = self.structure_selected - step;
        self.ensure_selected_visible();
    }

    fn page_down(&mut self)
        ensures
            final(self)@ == page_down(old(self)@),
    {
        let n = self.filtered_entries().len();
        if n > 0 {
            let max_sel = n - 1;
            self.structure_selected = if self.structure_selected < max_sel && max_sel - self.structure_selected > 10 {
                self.structure_selected + 10
            } else {
                max_sel
            };
            self.ensure_selected_visible();
        }
    }

    #[verifier::rlimit(50)]
    #[verifier::spinoff_prover]
    fn handle_browser_key(&mut self, event: &Event) -> (r: Action)
        ensures
            (final(self)@, r@) == browser_key(old(self)@, *event),
    {
        if let Event::Key(k) = event {
            let plain = !k.modifiers.ctrl && !k.modifiers.alt;
            match k.key {
                Key::Up => {
                    if plain {
                        self.select_up();
                    }
                    Action::NoOp
                },
                Key::Down => {
                    if plain {
                        self.select_down();
                    }
                    Action::NoOp
                },
                Key::Enter => {
                    if plain {
                        self.open_selected();
                    }
                    Action::NoOp
                },
                Key::Escape => {
                    if plain {
                        self.go_back()
                    } else {
                        Action::NoOp
                    }
                },
                Key::Char(ch) => {
                    if plain && ch == '/' {
                        self.structure_filter_active = true;
                        self.structure_filter = Vec::new();
                        self.structure_selected = 0;
                        self.structure_scroll = 0;
                        proof {
                            assert(self@.filter =~= Seq::<char>::empty());
                        }
                    } else if plain && ch == '.' {
                        self.show_hidden = !self.show_hidden;
                        self.structure_selected = 0;
                        self.structure_scroll = 0;
                        self.listing_pending = true;
                    }
                    Action::NoOp
                },
                Key::PageUp => {
                    self.page_up();
                    Action::NoOp
                },
                Key::PageDown => {
                    self.page_down();
                    Action::NoOp
                },
                Key::Home => {
                    self.structure_selected = 0;
                    self.ensure_selected_visible();
                    Action::NoOp
                },
                Key::End => {
                    let n = self.filtered_entries().len();
                    if n > 0 {
                        self.structure_selected = n - 1;
                        self.ensure_selected_visible();
                    }
                    Action::NoOp
                },
                _ => Action::NoOp,
            }
        } else {
            Action::NoOp
        }
    }

    /// The sidebar's response to an event (see [`sidebar_event`]); a
    /// directory change leaves its listing awaited.
    pub fn handle(&mut self, event: &Event) -> (r: Action)
        ensures
            (final(self)@, r@) == sidebar_event(old(self)@, *event),
    {
        if self.structure_mode {
            if self.structure_filter_active {
                self.handle_filter_key(event);
                return Action::NoOp;
            }
            return self.handle_browser_key(event);
        }
        if let Event::Key(k) = event {
            let m = k.modifiers;
            match k.key {
                Key::Tab => {
                    if !m.shift && !m.alt && !m.ctrl { Action::CycleFocusForward } else { Action::NoOp }
                },
                Key::BackTab => Action::CycleFocusBackward,
                Key::Up => {
                    if !m.alt && !m.ctrl {
                        self.scroll_up(1);
                    }
                    Action::NoOp
                },
                Key::Down => {
                    if !m.alt && !m.ctrl {
                        self.scroll_down(1);
                    }
                    Action::NoOp
                },
                Key::PageUp => {
                    self.scroll_up(10);
                    Action::NoOp
                },
                Key::PageDown => {
                    self.scroll_down(10);
                    Action::NoOp
                },
                Key::Home => {
                    self.scroll_home();
                    Action::NoOp
                },
                _ => Action::NoOp,
            }
        } else {
            Action::NoOp
        }
    }
}

/// Where a click on row `row` lands in the browser drawn in `area`: the
/// shown entry under it (counting from the entry window's top), if any.
pub open spec fn clicked_entry(s: SidebarState, row: int, area: Rect) -> Option<nat> {
    let first = area.y + items_before(s);
    let idx = s.sscroll + (row - first);
    if row < first || idx >= filtered(s.entries, s.filter).len() {
        None
    } else {
        Some(idx as nat)
    }
}

/// A click in the browser: it selects the entry under it; a click on the
/// already selected directory enters it.
pub open spec fn click_state(s: SidebarState, row: int, area: Rect) -> SidebarState {
    let f = filtered(s.entries, s.filter);
    if !s.mode || s.entries.len() == 0 || f.len() == 0 {
        s
    } else {
        match clicked_entry(s, row, area) {
            Some(i) => {
                let s1 = ensure_visible(SidebarState { selected: i, ..s });
                if s.selected == i && f[i as int].1 {
                    enter_dir(SidebarState { filter_active: false, ..s1 }, f[i as int].0)
                } else {
                    s1
                }
            },
            None => s,
        }
    }
}

impl SidebarWidget {
    /// Handle a click on the browser drawn in `area` (see [`click_state`]).
    pub fn click_structure_entry(&mut self, click_row: u16, click_col: u16, area: Rect)
        ensures
            final(self)@ == click_state(old(self)@, click_row as int, area),
    {
        if !self.structure_mode || self.structure_entries.len() == 0 {
            return;
        }
        let f = self.filtered_entries();
        if f.len() == 0 {
            return;
        }
        let first: u32 = area.y as u32 + self.count_items_before_structure() as u32;
        if (click_row as u32) < first {
            return;
        }
        let offset = (click_row as u32 - first) as usize;
        if self.structure_scroll >= f.len() || offset >= f.len() - self.structure_scroll {
            return;
        }
        let index = self.structure_scroll + offset;
        let was = self.structure_selected;
        self.structure_selected = index;
        self.ensure_selected_visible();
        proof {
            assert(filtered(self@.entries, self@.filter) == filtered(old(self)@.entries, old(self)@.filter));
        }
        if was == index && f[index].is_dir {
            proof {
                assert(entries_view(f@)[index as int] == entry_view(f@[index as int]));
            }
            self.structure_filter_active = false;
            self.enter_dir(f[index].name.as_str());
        }
    }
}

// ── Drawing ──────────────────────────────────────────────────────────────────

fn to_string(s: &str) -> (r: String)
    ensures
        r@ == s@,
{
    s.to_owned()
}

/// `s` when it fits in `max_width` columns, else `…` followed by its
/// longest prefix that fits in the rest.
pub open spec fn ellipsized(s: Seq<char>, max_width: int) -> Seq<char> {
    if str_width(s) <= max_width {
        s
    } else {
        let ew = str_width("…"@) as int;
        let avail = if max_width > ew { max_width - ew } else { 0 };
        "…"@ + (if str_width(s) <= avail { s } else { s.take(width_prefix_len(s, avail) as int) })
    }
}

/// `s` when it fits in `max_width` columns, else `…` followed by its
/// longest prefix that fits in the rest.
fn truncate_with_ellipsis(s: &str, max_width: usize) -> (r: String)
    ensures
        r@ == ellipsized(s@, max_width as int),
{
    if str_display_width(s) <= max_width {
        return to_string(s);
    }
    let ew = str_display_width("…");
    let avail = if max_width > ew { max_width - ew } else { 0 };
    let mut r = to_string("…");
    push_str(&mut r, truncate_str_width(s, avail));
    r
}

/// The columns a character takes in a breadcrumb: its display width, at least one.
pub open spec fn crumb_width(c: char) -> nat {
    if render_width(c) > 1 { render_width(c) } else { 1 }
}

/// The columns of a character sequence, each character taking at least one.
pub open spec fn crumb_cols(cs: Seq<char>) -> nat
    decreases cs.len(),
{
    if cs.len() == 0 {
        0
    } else {
        crumb_width(cs[0]) + crumb_cols(cs.drop_first())
    }
}

/// Whether the suffix of `cs` from `k` is the longest that fits in `avail` columns.
pub open spec fn tail_fits(cs: Seq<char>, k: int, avail: int) -> bool {
    &&& 0 <= k <= cs.len()
    &&& crumb_cols(cs.skip(k)) <= avail
    &&& (k == 0 || crumb_cols(cs.skip(k - 1)) > avail)
}

/// Where the longest suffix of `cs` that fits in `avail` columns starts.
pub open spec fn tail_start(cs: Seq<char>, avail: int) -> int {
    choose|k: int| tail_fits(cs, k, avail)
}

/// `s` when it fits in `max` columns, else `prefix` followed by the longest
/// suffix of `s` that fits in the rest (just `prefix` when no room is left).
pub open spec fn width_truncated(s: Seq<char>, max: int, prefix: Seq<char>) -> Seq<char> {
    if str_width(s) <= max {
        s
    } else {
        let avail = if max > str_width(prefix) { max - str_width(prefix) } else { 0 };
        if avail == 0 { prefix } else { prefix + s.skip(tail_start(s, avail)) }
    }
}

proof fn lemma_crumb_step(cs: Seq<char>, k: int)
    requires
        0 < k <= cs.len(),
    ensures
        crumb_cols(cs.skip(k - 1)) == crumb_width(cs[k - 1]) + crumb_cols(cs.skip(k)),
{
    assert(cs.skip(k - 1).drop_first() =~= cs.skip(k));
}

proof fn lemma_crumb_mono(cs: Seq<char>, a: int, b: int)
    requires
        0 <= a <= b <= cs.len(),
    ensures
        crumb_cols(cs.skip(a)) >= crumb_cols(cs.skip(b)),
    decreases b - a,
{
    if a < b {
        lemma_crumb_step(cs, b);
        lemma_crumb_mono(cs, a, b - 1);
    }
}

proof fn lemma_tail_unique(cs: Seq<char>, k: int, avail: int)
    requires
        tail_fits(cs, k, avail),
    ensures
        tail_start(cs, avail) == k,
{
    let j = tail_start(cs, avail);
    assert(tail_fits(cs, j, avail));
    if j < k {
        lemma_crumb_mono(cs, j, k - 1);
    } else if k < j {
        lemma_crumb_mono(cs, k, j - 1);
    }
}

/// `s` cut to `max_width` columns from the left behind `prefix` (see [`width_truncated`]).
fn truncate_to_width_with_prefix(s: &str, max_width: usize, prefix: &str) -> (r: String)
    ensures
        r@ == width_truncated(s@, max_width as int, prefix@),
{
    if str_display_width(s) <= max_width {
        return to_string(s);
    }
    let pw = str_display_width(prefix);
    let avail = if max_width > pw { max_width - pw } else { 0 };
    if avail == 0 {
        return to_string(prefix);
    }
    let cs = chars_of(s);
    let mut start = cs.len();
    let mut width: usize = 0;
    proof {
        assert(s@.skip(s@.len() as int) =~= Seq::<char>::empty());
    }
    while start > 0
        invariant
            start <= cs@.len(),
            cs@ == s@,
            width == crumb_cols(s@.skip(start as int)),
            width <= avail,
        ensures
            tail_fits(s@, start as int, avail as int),
        decreases start,
    {
        let w0 = width_or_one(cs[start - 1]);
        let w = if w0 > 1 { w0 } else { 1 };
        proof {
            lemma_crumb_step(s@, start as int);
        }
        if w > avail - width {
            break;
        }
        width = width + w;
        start -= 1;
    }
    proof {
        lemma_tail_unique(s@, start as int, avail as int);
    }
    let mut r = to_string(prefix);
    let tail = crate::text::slice_chars(&cs, start, cs.len());
    let t = string_of(&tail);
    push_str(&mut r, t.as_str());
    proof {
        assert(tail@ =~= s@.skip(start as int));
    }
    r
}

/// Where the extension of a file name starts within its first `i`
/// characters: after the last dot among them, or at 0.
pub open spec fn ext_start(name: Seq<char>, i: int) -> int
    decreases i,
{
    if i <= 0 {
        0
    } else if name[i - 1] == '.' {
        i
    } else {
        ext_start(name, i - 1)
    }
}

/// The extension of a file name: what follows its last dot (the whole name without a dot).
pub open spec fn extension_of(name: Seq<char>) -> Seq<char> {
    name.subrange(ext_start(name, name.len() as int), name.len() as int)
}

/// The extension of a file name (see [`extension_of`]).
fn extension(name: &[char]) -> (r: Vec<char>)
    ensures
        r@ == extension_of(name@),
{
    let mut i = name.len();
    while i > 0 && name[i - 1] != '.'
        invariant
            i <= name@.len(),
            ext_start(name@, name@.len() as int) == ext_start(name@, i as int),
        decreases i,
    {
        i -= 1;
    }
    crate::text::slice_chars(name, i, name.len())
}

/// Whether the extension `e` is `lit`.
fn is_ext(e: &[char], lit: &str) -> (r: bool)
    ensures
        r == (e@ == lit@),
{
    crate::text::chars_eq(e, &chars_of(lit))
}

/// The icon of a listing entry: `▸` for a directory, else one for the
/// file's extension (`·` for any other).
pub open spec fn entry_icon(name: Seq<char>, is_dir: bool) -> Seq<char> {
    let e = extension_of(name);
    if is_dir {
        "▸"@
    } else if e == "rs"@ {
        "Σ"@
    } else if e == "toml"@ {
        "⚙"@
    } else if e == "md"@ {
        "¶"@
    } else if e == "json"@ {
        "{ }"@
    } else if e == "yaml"@ || e == "yml"@ {
        "≡"@
    } else if e == "py"@ {
        "λ"@
    } else if e == "js"@ || e == "ts"@ {
        "ƒ"@
    } else if e == "txt"@ {
        "─"@
    } else if e == "lock"@ {
        "■"@
    } else if e == "cfg"@ || e == "ini"@ || e == "conf"@ {
        "※"@
    } else if e == "sh"@ || e == "bash"@ {
        "$"@
    } else if e == "png"@ || e == "jpg"@ || e == "jpeg"@ || e == "gif"@ || e == "svg"@ || e == "webp"@ {
        "◈"@
    } else if e == "gitignore"@ || e == "env"@ {
        "○"@
    } else {
        "·"@
    }
}

impl DirEntry {
    /// The entry's one-column icon (see [`entry_icon`]).
    pub fn icon(&self) -> (r: &'static str)
        ensures
            r@ == entry_icon(self.name@, self.is_dir),
    {
        icon_for_entry(self.name.as_str(), self.is_dir)
    }
}

/// A one-column icon for a listing entry (see [`entry_icon`]).
pub fn icon_for_entry(name: &str, is_dir: bool) -> (r: &'static str)
    ensures
        r@ == entry_icon(name@, is_dir),
{
    if is_dir {
        return "▸";
    }
    let cs = chars_of(name);
    let e = extension(&cs);
    if is_ext(&e, "rs") { "Σ" }
    else if is_ext(&e, "toml") { "⚙" }
    else if is_ext(&e, "md") { "¶" }
    else if is_ext(&e, "json") { "{ }" }
    else if is_ext(&e, "yaml") || is_ext(&e, "yml") { "≡" }
    else if is_ext(&e, "py") { "λ" }
    else if is_ext(&e, "js") || is_ext(&e, "ts") { "ƒ" }
    else if is_ext(&e, "txt") { "─" }
    else if is_ext(&e, "lock") { "■" }
    else if is_ext(&e, "cfg") || is_ext(&e, "ini") || is_ext(&e, "conf") { "※" }
    else if is_ext(&e, "sh") || is_ext(&e, "bash") { "$" }
    else if is_ext(&e, "png") || is_ext(&e, "jpg") || is_ext(&e, "jpeg") || is_ext(&e, "gif") || is_ext(&e, "svg")
        || is_ext(&e, "webp") { "◈" }
    else if is_ext(&e, "gitignore") || is_ext(&e, "env") { "○" }
    else { "·" }
}

/// The blank cell in the sidebar colors.
pub open spec fn sidebar_blank() -> Cell {
    Cell { char: ' ', fg: Color::Ansi(252), bg: Color::Ansi(234), style: plain_style(), wide: false }
}

/// The cells of `row` from column `c` up to `to` (and at most up to the
/// last 16-bit column) blanked in the sidebar colors.
pub open spec fn cleared_cells(v: ScreenView, row: int, c: int, to: int) -> ScreenView
    decreases to - c,
{
    if c >= to || c > 0xFFFF {
        v
    } else {
        cleared_cells(crate::tui::screen::put(v, row, c, sidebar_blank()), row, c + 1, to)
    }
}

/// Blank the cells of `row` from column `from` up to (not including) `to`
/// in the sidebar colors.
fn clear_cells(screen: &mut Screen, row: u16, from: u64, to: u64)
    requires
        old(screen).wf(),
    ensures
        final(screen)@ == cleared_cells(old(screen)@, row as int, from as int, to as int),
        final(screen).wf(),
        final(screen)@.width == old(screen)@.width,
        final(screen)@.height == old(screen)@.height,
        same_outside_rows(old(screen)@, final(screen)@, row as int, row + 1),
{
    proof {
        lemma_same_rows_refl(screen@, row as int, row + 1);
    }
    let mut c = from;
    while c < to && c <= 0xFFFF
        invariant
            screen.wf(),
            screen@.width == old(screen)@.width,
            screen@.height == old(screen)@.height,
            same_outside_rows(old(screen)@, screen@, row as int, row + 1),
            cleared_cells(screen@, row as int, c as int, to as int) == cleared_cells(old(screen)@, row as int, from as int, to as int),
        decreases 0x10000 - c,
    {
        screen.set_cell(row, c as u16, Cell {
            char: ' ',
            fg: styles::sidebar_fg(),
            bg: styles::sidebar_bg(),
            style: Style::new(),
            wide: false,
        });
        c += 1;
    }
}

/// Write `text` at `(row, col)` when the column is on the 16-bit grid.
fn put(screen: &mut Screen, row: u16, col: u64, text: &str, fg: Color, bg: Color, style: Style)
    requires
        old(screen).wf(),
    ensures
        final(screen)@ == put_text(old(screen)@, row as int, col as int, text@, fg, bg, style),
        final(screen).wf(),
        final(screen)@.width == old(screen)@.width,
        final(screen)@.height == old(screen)@.height,
        same_outside_rows(old(screen)@, final(screen)@, row as int, row + 1),
{
    proof {
        lemma_same_rows_refl(screen@, row as int, row + 1);
    }
    if col <= 0xFFFF {
        let ghost g1 = screen@;
        screen.write_str(row, col as u16, text, fg, bg, style);
        proof {
            lemma_same_rows_step(old(screen)@, g1, screen@, (row) as int, (row) as int + 1, row as int, row + 1);
        }
    }
}

/// The lines of the sidebar, drawn one per row.
enum SidebarItem {
    Header(String),
    LabeledValue { label: String, value: String, color: Color },
    Entry { icon: String, name: String, is_dir: bool },
    StructureEntry { icon: String, name: String, is_dir: bool, selected: bool },
    Skill(String),
    Spacer,
}

/// Whether `/  (` starts at `i` in `cs`.
pub open spec fn dir_marker_at(cs: Seq<char>, i: int) -> bool {
    0 <= i && i + 4 <= cs.len() && cs[i] == '/' && cs[i + 1] == ' ' && cs[i + 2] == ' ' && cs[i + 3] == '('
}

/// Whether a structure line names a directory: it ends with `/` or holds `/  (`.
pub open spec fn structure_is_dir(cs: Seq<char>) -> bool {
    (cs.len() > 0 && cs.last() == '/') || exists|i: int| #[trigger] dir_marker_at(cs, i)
}

/// The index of the first `c` in `cs` from `j` on, or the length when there is none.
pub open spec fn index_from(cs: Seq<char>, c: char, j: int) -> int
    decreases cs.len() - j,
{
    if j >= cs.len() || j < 0 {
        cs.len() as int
    } else if cs[j] == c {
        j
    } else {
        index_from(cs, c, j + 1)
    }
}

/// The name in a structure line: for a directory, the text before the first
/// slash, trimmed; for a file, the whole line.
pub open spec fn structure_name(cs: Seq<char>) -> Seq<char> {
    if structure_is_dir(cs) { trim(cs.take(index_from(cs, '/', 0))) } else { cs }
}

/// A structure line as icon, name and directory flag: `"dir/  (…)"` and
/// `"dir/"` are directories named by the text before the first slash,
/// trimmed; anything else is a file.
fn parse_structure_entry(entry: &String) -> (r: (String, String, bool))
    ensures
        r.2 == structure_is_dir(entry@),
        r.1@ == structure_name(entry@),
        r.0@ == entry_icon(r.1@, r.2),
{
    let cs = chars_of(entry.as_str());
    let n = cs.len();
    let mut is_dir = n > 0 && cs[n - 1] == '/';
    if !is_dir {
        let mut i: usize = 0;
        while i < n && n - i >= 4
            invariant_except_break
                !is_dir,
            invariant
                n == cs@.len(),
                forall|j: int| 0 <= j < i ==> !dir_marker_at(cs@, j),
            ensures
                is_dir ==> dir_marker_at(cs@, i as int),
                !is_dir ==> forall|j: int| !dir_marker_at(cs@, j),
            decreases n - i,
        {
            if cs[i] == '/' && cs[i + 1] == ' ' && cs[i + 2] == ' ' && cs[i + 3] == '(' {
                is_dir = true;
                break;
            }
            i += 1;
        }
    }
    let name = if is_dir {
        let mut j: usize = 0;
        while j < n && cs[j] != '/'
            invariant
                j <= n,
                n == cs@.len(),
                index_from(cs@, '/', j as int) == index_from(cs@, '/', 0),
            decreases n - j,
        {
            j += 1;
        }
        let head = crate::text::slice_chars(&cs, 0, j);
        proof {
            assert(head@ =~= cs@.take(index_from(cs@, '/', 0)));
        }
        string_of(&trim_chars(&head))
    } else {
        entry.as_str().to_owned()
    };
    let icon = to_string(icon_for_entry(name.as_str(), is_dir));
    (icon, name, is_dir)
}

/// A directory relative to the workspace root: empty at the root, the rest
/// of the path below it, or the whole path outside it.
pub open spec fn relative_path(cwd: Seq<char>, root: Seq<char>) -> Seq<char> {
    if cwd == root {
        Seq::empty()
    } else if root.is_prefix_of(cwd) && root.len() > 0 && root.last() == '/' {
        cwd.skip(root.len() as int)
    } else if root.is_prefix_of(cwd) && cwd.len() > root.len() && cwd[root.len() as int] == '/' {
        cwd.skip(root.len() + 1int)
    } else {
        cwd
    }
}

/// The header of the file browser: `.` at the workspace root, else the
/// path relative to it cut to `max` columns from the left behind `…`.
pub open spec fn breadcrumb(cwd: Seq<char>, root: Seq<char>, max: int) -> Seq<char> {
    let rel = relative_path(cwd, root);
    if rel.len() == 0 { "."@ } else { width_truncated(rel, max, "…"@) }
}

/// A section header on `row` from `col`: `┌─ {title} ` in bold gray, then
/// a `─` rule filling the rest of `max_width` columns.
pub open spec fn section_header_drawn(v: ScreenView, row: int, col: int, max_width: int, title: Seq<char>) -> ScreenView {
    let header = "┌─ "@ + title + seq![' '];
    let v1 = write_run(v, row, col, col, header, Color::Ansi(240), Color::Ansi(234), Style { bold: true, ..plain_style() });
    let hw = str_width(header) as int;
    let remaining = if max_width > hw { max_width - hw } else { 0 };
    if remaining > 0 && hw <= 0xFFFF {
        put_text(v1, row, col + hw, Seq::new(remaining as nat, |i: int| '─'), Color::Ansi(240), Color::Ansi(234), plain_style())
    } else {
        v1
    }
}

/// A labeled value on `row` from `col`: the label dim gray, then the value
/// in its color one column after it, cut with `…` to the rest of
/// `max_width`, and the rest of those columns blanked.
pub open spec fn labeled_value_drawn(
    v: ScreenView,
    row: int,
    col: int,
    max_width: int,
    label: Seq<char>,
    value: Seq<char>,
    color: Color,
) -> ScreenView {
    let v1 = write_run(v, row, col, col, label, Color::Ansi(244), Color::Ansi(234), Style { dim: true, ..plain_style() });
    let lw = str_width(label) as int;
    if lw > 0xFFFF {
        v1
    } else {
        let value_col = col + lw + 1;
        let available = if max_width > lw + 1 { max_width - (lw + 1) } else { 0 };
        let display = ellipsized(value, available);
        let v2 = put_text(v1, row, value_col, display, color, Color::Ansi(234), plain_style());
        let dw = str_width(display) as int;
        if dw <= 0xFFFF && max_width <= 0xFFFF {
            cleared_cells(v2, row, value_col + dw, col + max_width)
        } else {
            v2
        }
    }
}

impl SidebarWidget {
    /// The browsed directory relative to the workspace root, for the
    /// browser header (see [`breadcrumb`]).
    pub fn format_breadcrumb(&self, max_width: usize) -> (r: String)
        ensures
            r@ == breadcrumb(self@.cwd, self@.root, max_width as int),
    {
        let cwd = chars_of(self.structure_cwd.as_str());
        let root = chars_of(self.workspace_root.as_str());
        let rel: Vec<char> = if crate::text::chars_eq(&cwd, &root) {
            Vec::new()
        } else if crate::text::starts_with(&cwd, &root) && root.len() > 0 && root[root.len() - 1] == '/' {
            crate::text::slice_chars(&cwd, root.len(), cwd.len())
        } else if crate::text::starts_with(&cwd, &root) && cwd.len() > root.len() && cwd[root.len()] == '/' {
            crate::text::slice_chars(&cwd, root.len() + 1, cwd.len())
        } else {
            copy_chars(&cwd)
        };
        proof {
            assert(rel@ == relative_path(self@.cwd, self@.root));
        }
        if rel.len() == 0 {
            return to_string(".");
        }
        let display = string_of(&rel);
        truncate_to_width_with_prefix(display.as_str(), max_width, "…")
    }

    fn draw_section_header(screen: &mut Screen, row: u16, col: u16, max_width: usize, title: &str)
        requires
            old(screen).wf(),
        ensures
            final(screen).wf(),
            final(screen)@.width == old(screen)@.width,
            final(screen)@.height == old(screen)@.height,
            same_outside_rows(old(screen)@, final(screen)@, row as int, row + 1),
            final(screen)@ == section_header_drawn(old(screen)@, row as int, col as int, max_width as int, title@),
    {
        proof {
            lemma_same_rows_refl(screen@, row as int, row + 1);
        }
        let mut header = to_string("┌─ ");
        push_str(&mut header, title);
        string_push(&mut header, ' ');
        proof {
            assert(header@ =~= "┌─ "@ + title@ + seq![' ']);
        }
        let hw = str_display_width(header.as_str());
        let ghost g2 = screen@;
        screen.write_str(row, col, header.as_str(), styles::sidebar_border(), styles::sidebar_bg(), Style::bold());
        proof {
            lemma_same_rows_step(old(screen)@, g2, screen@, (row) as int, (row) as int + 1, row as int, row + 1);
        }
        let remaining = if max_width > hw { max_width - hw } else { 0 };
        if remaining > 0 && hw <= 0xFFFF {
            let mut line = String::new();
            let mut k: usize = 0;
            while k < remaining
                invariant
                    k <= remaining,
                    line@ =~= Seq::new(k as nat, |i: int| '─'),
                decreases remaining - k,
            {
                string_push(&mut line, '─');
                k += 1;
            }
            let ghost g3 = screen@;
            put(screen, row, col as u64 + hw as u64, line.as_str(), styles::sidebar_border(), styles::sidebar_bg(), Style::new());
            proof {
                lemma_same_rows_step(old(screen)@, g3, screen@, (row) as int, (row) as int + 1, row as int, row + 1);
            }
        }
    }

    fn draw_labeled_value(screen: &mut Screen, row: u16, col: u16, max_width: usize, label: &str, value: &str, color: Color)
        requires
            old(screen).wf(),
        ensures
            final(screen).wf(),
            final(screen)@.width == old(screen)@.width,
            final(screen)@.height == old(screen)@.height,
            same_outside_rows(old(screen)@, final(screen)@, row as int, row + 1),
            final(screen)@ == labeled_value_drawn(old(screen)@, row as int, col as int, max_width as int, label@, value@, color),
    {
        proof {
            lemma_same_rows_refl(screen@, row as int, row + 1);
        }
        let lw = str_display_width(label);
        let ghost g4 = screen@;
        screen.write_str(row, col, label, Color::Ansi(244), styles::sidebar_bg(), Style::dim());
        proof {
            lemma_same_rows_step(old(screen)@, g4, screen@, (row) as int, (row) as int + 1, row as int, row + 1);
        }
        if lw > 0xFFFF {
            return;
        }
        let value_col: u64 = col as u64 + lw as u64 + 1;
        let available = if max_width > lw + 1 { max_width - (lw + 1) } else { 0 };
        let display = truncate_with_ellipsis(value, available);
        let ghost g5 = screen@;
        put(screen, row, value_col, display.as_str(), color, styles::sidebar_bg(), Style::new());
        proof {
            lemma_same_rows_step(old(screen)@, g5, screen@, (row) as int, (row) as int + 1, row as int, row + 1);
        }
        let dw = str_display_width(display.as_str());
        if dw <= 0xFFFF && max_width <= 0xFFFF {
            let ghost g6 = screen@;
            clear_cells(screen, row, value_col + dw as u64, col as u64 + max_width as u64);
            proof {
                lemma_same_rows_step(old(screen)@, g6, screen@, (row) as int, (row) as int + 1, row as int, row + 1);
            }
        }
    }

    fn build_items(&self, max_width: usize) -> (items: Vec<SidebarItem>)
        ensures
            !self@.mode && self@.structure.len() > 0 ==> exists|order: Seq<(Seq<char>, bool)>|
                listing_sorted(order)
                && order.to_multiset() == shown_entries(parsed_structure(self@.structure), true).to_multiset()
                && keeps_ties(shown_entries(parsed_structure(self@.structure), true), order)
                && #[trigger] items_view(items@) == built_items(self@, max_width as int, order),
            self@.mode || self@.structure.len() == 0 ==> items_view(items@) == built_items(self@, max_width as int, Seq::empty()),
            items_of(self@, max_width as int, items_view(items@)),
    {
        let mut items: Vec<SidebarItem> = Vec::new();
        push_item(&mut items, SidebarItem::Header(to_string("Project")));
        if !self.project_name.as_str().is_empty() {
            push_item(&mut items, SidebarItem::LabeledValue { label: to_string("Name:"), value: self.project_name.as_str().to_owned(), color: Color::Ansi(7) });
        }
        if !self.project_type.as_str().is_empty() {
            push_item(&mut items, SidebarItem::LabeledValue { label: to_string("Type:"), value: self.project_type.as_str().to_owned(), color: Color::Ansi(14) });
        }
        if let Some(branch) = &self.git_branch {
            push_item(&mut items, SidebarItem::LabeledValue { label: to_string("Git:"), value: branch.as_str().to_owned(), color: Color::Ansi(2) });
        }
        if !self.build_command.as_str().is_empty() {
            push_item(&mut items, SidebarItem::LabeledValue { label: to_string("Build:"), value: self.build_command.as_str().to_owned(), color: Color::Ansi(252) });
        }
        if !self.test_command.as_str().is_empty() {
            push_item(&mut items, SidebarItem::LabeledValue { label: to_string("Test:"), value: self.test_command.as_str().to_owned(), color: Color::Ansi(252) });
        }
        push_item(&mut items, SidebarItem::Spacer);
        proof {
            assert(items_view(items@) =~= project_items(self@));
        }
        let ghost head = items_view(items@);
        let ghost mut order: Seq<(Seq<char>, bool)> = Seq::empty();
        if self.structure_mode {
            self.push_browser(&mut items, max_width);
        } else if self.structure.len() > 0 {
            push_item(&mut items, SidebarItem::Header(to_string("Structure")));
            let ghost h1 = items_view(items@);
            let raw = self.parsed_entries();
            let sorted = sort_listing(&raw, true);
            proof {
                order = entries_view(sorted@);
            }
            let mut j: usize = 0;
            while j < sorted.len()
                invariant
                    j <= sorted@.len(),
                    order == entries_view(sorted@),
                    items_view(items@) == h1 + Seq::new(j as nat, |k: int| ItemView::Entry(entry_icon(order[k].0, order[k].1), order[k].0, order[k].1)),
                decreases sorted@.len() - j,
            {
                let e = &sorted[j];
                push_item(&mut items, SidebarItem::Entry {
                    icon: to_string(icon_for_entry(e.name.as_str(), e.is_dir)),
                    name: e.name.as_str().to_owned(),
                    is_dir: e.is_dir,
                });
                proof {
                    assert(items_view(items@) =~= h1 + Seq::new((j + 1) as nat, |k: int| ItemView::Entry(entry_icon(order[k].0, order[k].1), order[k].0, order[k].1)));
                }
                j += 1;
            }
            push_item(&mut items, SidebarItem::Spacer);
        }
        self.push_skills(&mut items);
        proof {
            assert(items_view(items@) =~= built_items(self@, max_width as int, order));
        }
        items
    }

    /// The entries parsed from the structure lines.
    fn parsed_entries(&self) -> (raw: Vec<DirEntry>)
        ensures
            entries_view(raw@) == parsed_structure(self@.structure),
    {
        let mut raw: Vec<DirEntry> = Vec::new();
        let mut i: usize = 0;
        while i < self.structure.len()
            invariant
                i <= self.structure@.len(),
                entries_view(raw@) == parsed_structure(self@.structure).take(i as int),
                raw@.len() == i,
                self@.structure.len() == self.structure@.len(),
                forall|k: int| 0 <= k < self.structure@.len() ==> #[trigger] self@.structure[k] == self.structure@[k]@,
            decreases self.structure@.len() - i,
        {
            let (_icon, name, is_dir) = parse_structure_entry(&self.structure[i]);
            let ghost line = self@.structure[i as int];
            let ghost raw0 = raw@;
            raw.push(DirEntry { name, is_dir });
            proof {
                assert(line == self.structure@[i as int]@);
                assert(raw@ == raw0.push(DirEntry { name, is_dir }));
                assert(entry_view(raw@[i as int]) == (structure_name(line), structure_is_dir(line)));
                assert(parsed_structure(self@.structure)[i as int] == (structure_name(line), structure_is_dir(line)));
                assert(entries_view(raw@) =~= parsed_structure(self@.structure).take(i + 1));
            }
            i += 1;
        }
        proof {
            assert(parsed_structure(self@.structure).take(i as int) =~= parsed_structure(self@.structure));
        }
        raw
    }

    /// Append the file browser section (see [`browser_items`]).
    fn push_browser(&self, items: &mut Vec<SidebarItem>, max_width: usize)
        ensures
            items_view(final(items)@) == items_view(old(items)@) + browser_items(self@, max_width as int),
    {
        let ghost head = items_view(items@);
        let path_display = self.format_breadcrumb(if max_width > 14 { max_width - 14 } else { 0 });
        let header = if self.structure_filter_active || self.structure_filter.len() > 0 {
            let filter = string_of(&self.structure_filter);
            let flen = filter.as_str().as_bytes().len();
            let limit = if max_width > 6 { max_width - 6 } else { 0 };
            let mut h = to_string("Filter: ");
            if flen > limit {
                let keep = if max_width > 8 { max_width - 8 } else { 0 };
                let k = if self.structure_filter.len() > keep { keep } else { self.structure_filter.len() };
                let tail = crate::text::slice_chars(&self.structure_filter, self.structure_filter.len() - k, self.structure_filter.len());
                string_push(&mut h, '…');
                push_str(&mut h, string_of(&tail).as_str());
            } else {
                push_str(&mut h, filter.as_str());
            }
            if self.structure_filter_active {
                push_str(&mut h, "▏");
            }
            proof {
                assert(h@ =~= filter_header(self@.filter, self@.filter_active, max_width as int));
            }
            h
        } else {
            let mut h = to_string("Structure");
            if self.show_hidden {
                push_str(&mut h, " ·");
            }
            push_str(&mut h, " ─ ");
            push_str(&mut h, path_display.as_str());
            proof {
                assert(h@ =~= "Structure"@ + (if self@.show_hidden { " ·"@ } else { Seq::<char>::empty() }) + " ─ "@
                    + breadcrumb(self@.cwd, self@.root, if max_width > 14 { max_width - 14 } else { 0 }));
            }
            h
        };
        push_item(items, SidebarItem::Header(header));
        let list = self.filtered_entries();
        let ghost f = filtered(self@.entries, self@.filter);
        let ghost h1 = items_view(items@);
        if list.len() == 0 {
            push_item(items, SidebarItem::StructureEntry { icon: to_string("  "), name: to_string("(no matches)"), is_dir: false, selected: false });
        } else {
            let mut i: usize = 0;
            while i < list.len()
                invariant
                    i <= list@.len(),
                    entries_view(list@) == f,
                    items_view(items@) == h1 + Seq::new(i as nat, |k: int| ItemView::StructureEntry(entry_icon(f[k].0, f[k].1), f[k].0, f[k].1, k == self@.selected)),
                decreases list@.len() - i,
            {
                let e = &list[i];
                push_item(items, SidebarItem::StructureEntry {
                    icon: to_string(icon_for_entry(e.name.as_str(), e.is_dir)),
                    name: e.name.as_str().to_owned(),
                    is_dir: e.is_dir,
                    selected: i == self.structure_selected,
                });
                proof {
                    assert(items_view(items@) =~= h1 + Seq::new((i + 1) as nat, |k: int| ItemView::StructureEntry(entry_icon(f[k].0, f[k].1), f[k].0, f[k].1, k == self@.selected)));
                }
                i += 1;
            }
        }
        push_item(items, SidebarItem::Spacer);
        proof {
            assert(items_view(items@) =~= head + browser_items(self@, max_width as int));
        }
    }

    /// Append the skills section: a header and each active skill, when any.
    fn push_skills(&self, items: &mut Vec<SidebarItem>)
        ensures
            items_view(final(items)@) == items_view(old(items)@) + (if self@.skills.len() > 0 {
                seq![ItemView::Header("Skills"@)] + Seq::new(self@.skills.len(), |i: int| ItemView::Skill(self@.skills[i].0))
            } else {
                Seq::<ItemView>::empty()
            }),
    {
        let ghost h0 = items_view(items@);
        if self.active_skills.len() > 0 {
            push_item(items, SidebarItem::Header(to_string("Skills")));
            let ghost h2 = items_view(items@);
            let mut i: usize = 0;
            while i < self.active_skills.len()
                invariant
                    i <= self.active_skills@.len(),
                    self@.skills.len() == self.active_skills@.len(),
                    forall|k: int| 0 <= k < self.active_skills@.len() ==> #[trigger] self@.skills[k].0 == self.active_skills@[k].0@,
                    items_view(items@) == h2 + Seq::new(i as nat, |k: int| ItemView::Skill(self@.skills[k].0)),
                decreases self.active_skills@.len() - i,
            {
                push_item(items, SidebarItem::Skill(self.active_skills[i].0.as_str().to_owned()));
                proof {
                    assert(items_view(items@) =~= h2 + Seq::new((i + 1) as nat, |k: int| ItemView::Skill(self@.skills[k].0)));
                }
                i += 1;
            }
            proof {
                assert(items_view(items@) =~= h0 + (seq![ItemView::Header("Skills"@)] + Seq::new(self@.skills.len(), |i: int| ItemView::Skill(self@.skills[i].0))));
            }
        } else {
            proof {
                assert(items_view(items@) =~= h0 + Seq::<ItemView>::empty());
            }
        }
    }
}

/// The text of a file entry: `lead`, then `{icon} {name}` (with a `/` after
/// a directory's name) cut with `…` to `max_width` columns.
pub open spec fn entry_line(lead: Seq<char>, icon: Seq<char>, name: Seq<char>, is_dir: bool, max_width: int) -> Seq<char> {
    lead + ellipsized(icon + seq![' '] + name + (if is_dir { seq!['/'] } else { Seq::empty() }), max_width)
}

/// A sidebar line with its texts as character sequences.
pub enum ItemView {
    Header(Seq<char>),
    LabeledValue(Seq<char>, Seq<char>, Color),
    Entry(Seq<char>, Seq<char>, bool),
    StructureEntry(Seq<char>, Seq<char>, bool, bool),
    Skill(Seq<char>),
    Spacer,
}

spec fn item_view(i: SidebarItem) -> ItemView {
    match i {
        SidebarItem::Header(t) => ItemView::Header(t@),
        SidebarItem::LabeledValue { label, value, color } => ItemView::LabeledValue(label@, value@, color),
        SidebarItem::Entry { icon, name, is_dir } => ItemView::Entry(icon@, name@, is_dir),
        SidebarItem::StructureEntry { icon, name, is_dir, selected } => ItemView::StructureEntry(icon@, name@, is_dir, selected),
        SidebarItem::Skill(n) => ItemView::Skill(n@),
        SidebarItem::Spacer => ItemView::Spacer,
    }
}

spec fn items_view(v: Seq<SidebarItem>) -> Seq<ItemView> {
    v.map_values(|i: SidebarItem| item_view(i))
}

fn push_item(items: &mut Vec<SidebarItem>, it: SidebarItem)
    ensures
        items_view(final(items)@) == items_view(old(items)@).push(item_view(it)),
{
    items.push(it);
    proof {
        assert(items_view(items@) =~= items_view(old(items)@).push(item_view(it)));
    }
}

/// A labeled project fact, when its value is not empty.
pub open spec fn fact(label: Seq<char>, value: Seq<char>, color: Color) -> Seq<ItemView> {
    if value.len() > 0 { seq![ItemView::LabeledValue(label, value, color)] } else { Seq::empty() }
}

/// The project section: a header, the name, type, git branch, build and test
/// commands that are set, and a spacer.
pub open spec fn project_items(s: SidebarState) -> Seq<ItemView> {
    seq![ItemView::Header("Project"@)] + fact("Name:"@, s.project_name, Color::Ansi(7)) + fact("Type:"@, s.project_type, Color::Ansi(14))
        + (match s.git_branch {
            Some(b) => seq![ItemView::LabeledValue("Git:"@, b, Color::Ansi(2))],
            None => Seq::empty(),
        }) + fact("Build:"@, s.build_command, Color::Ansi(252)) + fact("Test:"@, s.test_command, Color::Ansi(252))
        + seq![ItemView::Spacer]
}

/// The header of the file browser while filtering: `Filter: ` and the
/// filter (its tail behind `…` when longer in bytes than `max_width - 6`),
/// with a `▏` cursor while it is typed.
pub open spec fn filter_header(filter: Seq<char>, active: bool, max_width: int) -> Seq<char> {
    let limit = if max_width > 6 { max_width - 6 } else { 0 };
    let keep = if max_width > 8 { max_width - 8 } else { 0 };
    let k = if filter.len() > keep { keep } else { filter.len() as int };
    "Filter: "@ + (if encode_utf8(filter).len() > limit { seq!['…'] + filter.skip(filter.len() - k) } else { filter })
        + (if active { "▏"@ } else { Seq::empty() })
}

/// The file browser section: its header (the filter while filtering, else
/// `Structure`, a `·` when hidden files are shown, and the breadcrumb), the
/// filtered entries with the selected one marked (or a `(no matches)`
/// line), and a spacer.
pub open spec fn browser_items(s: SidebarState, max_width: int) -> Seq<ItemView> {
    let header = if s.filter_active || s.filter.len() > 0 {
        filter_header(s.filter, s.filter_active, max_width)
    } else {
        "Structure"@ + (if s.show_hidden { " ·"@ } else { Seq::empty() }) + " ─ "@
            + breadcrumb(s.cwd, s.root, if max_width > 14 { max_width - 14 } else { 0 })
    };
    let f = filtered(s.entries, s.filter);
    let rows = if f.len() == 0 {
        seq![ItemView::StructureEntry("  "@, "(no matches)"@, false, false)]
    } else {
        Seq::new(f.len(), |i: int| ItemView::StructureEntry(entry_icon(f[i].0, f[i].1), f[i].0, f[i].1, i == s.selected))
    };
    seq![ItemView::Header(header)] + rows + seq![ItemView::Spacer]
}

/// The entries parsed from the structure lines (see [`structure_name`]).
pub open spec fn parsed_structure(lines: Seq<Seq<char>>) -> Seq<(Seq<char>, bool)> {
    lines.map_values(|l: Seq<char>| (structure_name(l), structure_is_dir(l)))
}

/// The lines of the sidebar, with the structure summary's entries in the
/// order `order` (the parsed structure lines, sorted): the project section,
/// then the file browser in browsing mode or else the structure summary
/// when there is one, then the active skills under a header.
pub open spec fn built_items(s: SidebarState, max_width: int, order: Seq<(Seq<char>, bool)>) -> Seq<ItemView> {
    let mid = if s.mode {
        browser_items(s, max_width)
    } else if s.structure.len() > 0 {
        seq![ItemView::Header("Structure"@)]
            + Seq::new(order.len(), |i: int| ItemView::Entry(entry_icon(order[i].0, order[i].1), order[i].0, order[i].1))
            + seq![ItemView::Spacer]
    } else {
        Seq::empty()
    };
    let tail = if s.skills.len() > 0 {
        seq![ItemView::Header("Skills"@)] + Seq::new(s.skills.len(), |i: int| ItemView::Skill(s.skills[i].0))
    } else {
        Seq::empty()
    };
    project_items(s) + mid + tail
}

fn entry_text(lead: &str, icon: &String, name: &String, is_dir: bool, max_width: usize) -> (r: String)
    ensures
        r@ == entry_line(lead@, icon@, name@, is_dir, max_width as int),
{
    let mut display = String::new();
    push_str(&mut display, icon.as_str());
    string_push(&mut display, ' ');
    push_str(&mut display, name.as_str());
    if is_dir {
        string_push(&mut display, '/');
    }
    proof {
        assert(display@ =~= icon@ + seq![' '] + name@ + (if is_dir { seq!['/'] } else { Seq::<char>::empty() }));
    }
    let truncated = truncate_with_ellipsis(display.as_str(), max_width);
    let mut text = to_string(lead);
    push_str(&mut text, truncated.as_str());
    text
}

/// The cells of `row` from column `c0 + k` up to `c0 + span` (at most up to
/// the last 16-bit column) set to the selection bar's blank.
pub open spec fn selection_bar(v: ScreenView, row: int, c0: int, k: int, span: int) -> ScreenView
    decreases span - k,
{
    if k >= span {
        v
    } else {
        let c = c0 + k;
        let v1 = if c <= 0xFFFF {
            crate::tui::screen::put(v, row, c, Cell { char: ' ', fg: Color::Ansi(7), bg: Color::Ansi(240), style: plain_style(), wide: false })
        } else {
            v
        };
        selection_bar(v1, row, c0, k + 1, span)
    }
}

/// An unselected file entry drawn at `(row, x2)` (a directory cyan, a file
/// light gray) with the rest of the row up to `right` blanked.
pub open spec fn plain_entry_drawn(
    v: ScreenView,
    row: int,
    x2: int,
    right: int,
    icon: Seq<char>,
    name: Seq<char>,
    is_dir: bool,
    max_width: int,
) -> ScreenView {
    let t = entry_line("  "@, icon, name, is_dir, max_width);
    let fg = if is_dir { Color::Ansi(14) } else { Color::Ansi(252) };
    let v1 = put_text(v, row, x2, t, fg, Color::Ansi(234), plain_style());
    let tw = str_width(t) as int;
    if tw <= 0xFFFF { cleared_cells(v1, row, x2 + tw, right) } else { v1 }
}

/// A sidebar line drawn on `row`, two columns into `area`.
pub open spec fn item_drawn(v: ScreenView, item: ItemView, row: int, area: Rect, max_width: int) -> ScreenView {
    let x2 = area.x + 2;
    let right = area.x + (if area.width > 0 { area.width - 1 } else { 0 });
    match item {
        ItemView::Header(title) => if x2 <= 0xFFFF { section_header_drawn(v, row, x2, max_width, title) } else { v },
        ItemView::LabeledValue(label, value, color) => if x2 <= 0xFFFF {
            labeled_value_drawn(v, row, x2, max_width, label, value, color)
        } else {
            v
        },
        ItemView::Entry(icon, name, is_dir) => plain_entry_drawn(v, row, x2, right, icon, name, is_dir, max_width),
        ItemView::StructureEntry(icon, name, is_dir, selected) => if selected {
            let span = if area.width > 2 { area.width - 2 } else { 0 };
            let v1 = selection_bar(v, row, area.x + 1, 0, span);
            put_text(v1, row, x2, entry_line("▶ "@, icon, name, is_dir, max_width), Color::Ansi(7), Color::Ansi(240),
                Style { bold: true, ..plain_style() })
        } else {
            plain_entry_drawn(v, row, x2, right, icon, name, is_dir, max_width)
        },
        ItemView::Skill(name) => {
            let d = "✦ "@ + name;
            let v1 = put_text(v, row, x2, d, Color::Ansi(6), Color::Ansi(234), Style { bold: true, ..plain_style() });
            let dw = str_width(d) as int;
            if dw <= 0xFFFF { cleared_cells(v1, row, x2 + dw, right) } else { v1 }
        },
        ItemView::Spacer => v,
    }
}

impl SidebarWidget {
    fn draw_item(&self, item: &SidebarItem, screen: &mut Screen, row: u16, area: Rect, max_width: usize)
        requires
            old(screen).wf(),
            area.x + area.width <= u16::MAX,
        ensures
            final(screen).wf(),
            final(screen)@.width == old(screen)@.width,
            final(screen)@.height == old(screen)@.height,
            same_outside_rows(old(screen)@, final(screen)@, row as int, row + 1),
            final(screen)@ == item_drawn(old(screen)@, item_view(*item), row as int, area, max_width as int),
    {
        proof {
            lemma_same_rows_refl(screen@, row as int, row + 1);
        }
        let x2: u64 = area.x as u64 + 2;
        let right: u64 = area.x as u64 + if area.width > 0 { area.width as u64 - 1 } else { 0 };
        match item {
            SidebarItem::Header(title) => {
                if x2 <= 0xFFFF {
                    let ghost g7 = screen@;
                    Self::draw_section_header(screen, row, x2 as u16, max_width, title.as_str());
                    proof {
                        lemma_same_rows_step(old(screen)@, g7, screen@, (row) as int, (row) as int + 1, row as int, row + 1);
                    }
                }
            },
            SidebarItem::LabeledValue { label, value, color } => {
                if x2 <= 0xFFFF {
                    let ghost g8 = screen@;
                    Self::draw_labeled_value(screen, row, x2 as u16, max_width, label.as_str(), value.as_str(), *color);
                    proof {
                        lemma_same_rows_step(old(screen)@, g8, screen@, (row) as int, (row) as int + 1, row as int, row + 1);
                    }
                }
            },
            SidebarItem::Entry { icon, name, is_dir } => {
                let text = entry_text("  ", icon, name, *is_dir, max_width);
                let fg = if *is_dir { Color::Ansi(14) } else { Color::Ansi(252) };
                let ghost g9 = screen@;
                put(screen, row, x2, text.as_str(), fg, styles::sidebar_bg(), Style::new());
                proof {
                    lemma_same_rows_step(old(screen)@, g9, screen@, (row) as int, (row) as int + 1, row as int, row + 1);
                }
                let tw = str_display_width(text.as_str());
                if tw <= 0xFFFF {
                    let ghost g10 = screen@;
                    clear_cells(screen, row, x2 + tw as u64, right);
                    proof {
                        lemma_same_rows_step(old(screen)@, g10, screen@, (row) as int, (row) as int + 1, row as int, row + 1);
                    }
                }
            },
            SidebarItem::StructureEntry { icon, name, is_dir, selected } => {
                if *selected {
                    let sel_bg = Color::Ansi(240);
                    let sel_fg = Color::Ansi(7);
                    let span: u64 = if area.width > 2 { area.width as u64 - 2 } else { 0 };
                    let mut k: u64 = 0;
                    while k < span
                        invariant
                            screen.wf(),
                            screen@.width == old(screen)@.width,
                            screen@.height == old(screen)@.height,
                            same_outside_rows(old(screen)@, screen@, row as int, row + 1),
                            span <= 0xFFFF,
                            area.x + area.width <= u16::MAX,
                            span == (if area.width > 2 { area.width - 2 } else { 0 }),
                            sel_fg == Color::Ansi(7),
                            sel_bg == Color::Ansi(240),
                            selection_bar(screen@, row as int, area.x + 1, k as int, span as int)
                                == selection_bar(old(screen)@, row as int, area.x + 1, 0, span as int),
                        decreases span - k,
                    {
                        let c: u64 = area.x as u64 + 1 + k;
                        if c <= 0xFFFF {
                            let ghost g11 = screen@;
                            screen.set_cell(row, c as u16, Cell { char: ' ', fg: sel_fg, bg: sel_bg, style: Style::new(), wide: false });
                            proof {
                                lemma_same_rows_step(old(screen)@, g11, screen@, (row) as int, (row) as int + 1, row as int, row + 1);
                            }
                        }
                        k += 1;
                    }
                    let text = entry_text("▶ ", icon, name, *is_dir, max_width);
                    let ghost g12 = screen@;
                    put(screen, row, x2, text.as_str(), sel_fg, sel_bg, Style::bold());
                    proof {
                        lemma_same_rows_step(old(screen)@, g12, screen@, (row) as int, (row) as int + 1, row as int, row + 1);
                    }
                } else {
                    let text = entry_text("  ", icon, name, *is_dir, max_width);
                    let fg = if *is_dir { Color::Ansi(14) } else { Color::Ansi(252) };
                    let ghost g13 = screen@;
                    put(screen, row, x2, text.as_str(), fg, styles::sidebar_bg(), Style::new());
                    proof {
                        lemma_same_rows_step(old(screen)@, g13, screen@, (row) as int, (row) as int + 1, row as int, row + 1);
                    }
                    let tw = str_display_width(text.as_str());
                    if tw <= 0xFFFF {
                        let ghost g14 = screen@;
                        clear_cells(screen, row, x2 + tw as u64, right);
                        proof {
                            lemma_same_rows_step(old(screen)@, g14, screen@, (row) as int, (row) as int + 1, row as int, row + 1);
                        }
                    }
                }
            },
            SidebarItem::Skill(name) => {
                let mut display = to_string("✦ ");
                push_str(&mut display, name.as_str());
                proof {
                    assert(display@ =~= "✦ "@ + name@);
                }
                let dw = str_display_width(display.as_str());
                let ghost g15 = screen@;
                put(screen, row, x2, display.as_str(), Color::Ansi(6), styles::sidebar_bg(), Style::bold());
                proof {
                    lemma_same_rows_step(old(screen)@, g15, screen@, (row) as int, (row) as int + 1, row as int, row + 1);
                }
                if dw <= 0xFFFF {
                    let ghost g16 = screen@;
                    clear_cells(screen, row, x2 + dw as u64, right);
                    proof {
                        lemma_same_rows_step(old(screen)@, g16, screen@, (row) as int, (row) as int + 1, row as int, row + 1);
                    }
                }
            },
            SidebarItem::Spacer => {},
        }
    }
}

/// The columns the sidebar's lines may take in `area`.
pub open spec fn text_width(area: Rect) -> int {
    if area.width >= 4 { area.width - 4 } else { 0 }
}

/// Whether `items` are the sidebar's lines for `s` (see [`built_items`]),
/// the structure summary's entries being the parsed structure lines in
/// listing order, those sorting to the same place in their order in the
/// structure.
pub open spec fn items_of(s: SidebarState, max_width: int, items: Seq<ItemView>) -> bool {
    if !s.mode && s.structure.len() > 0 {
        exists|order: Seq<(Seq<char>, bool)>|
            listing_sorted(order)
            && order.to_multiset() == shown_entries(parsed_structure(s.structure), true).to_multiset()
            && keeps_ties(shown_entries(parsed_structure(s.structure), true), order)
            && #[trigger] built_items(s, max_width, order) == items
    } else {
        items == built_items(s, max_width, Seq::empty())
    }
}

/// The lines from `idx` on drawn one per row from `row`, the first `skip`
/// lines scrolled away, at most `available` of them and only above
/// `last_row`. Also gives the rows of the browser entries drawn, after
/// `erows`.
pub open spec fn sidebar_rows(
    v: ScreenView,
    items: Seq<ItemView>,
    idx: int,
    skip: int,
    row: int,
    drawn: int,
    available: int,
    last_row: int,
    area: Rect,
    max_width: int,
    erows: Seq<int>,
) -> (ScreenView, Seq<int>)
    decreases items.len() - idx,
{
    if idx >= items.len() || idx < 0 {
        (v, erows)
    } else if idx < skip {
        sidebar_rows(v, items, idx + 1, skip, row, drawn, available, last_row, area, max_width, erows)
    } else if drawn >= available || row >= last_row {
        (v, erows)
    } else {
        let e2 = if items[idx] is StructureEntry { erows.push(row) } else { erows };
        sidebar_rows(item_drawn(v, items[idx], row, area, max_width), items, idx + 1, skip, row + 1, drawn + 1, available,
            last_row, area, max_width, e2)
    }
}

/// The scroll offset after drawing: when browsing and the selected entry
/// was drawn outside the rows between the top border and the bottom row,
/// the offset moved by as many rows as bring it back, kept within
/// `max_scroll`.
pub open spec fn kept_scroll(scroll: int, erows: Seq<int>, mode: bool, selected: int, area: Rect, max_scroll: int) -> int {
    if mode && erows.len() > 0 && selected < erows.len() {
        let sel = erows[selected];
        let top = area.y + 1;
        let bottom = if area.height >= 2 { area.y + area.height - 2 } else { area.y as int };
        if sel < top || sel > bottom {
            let target = if sel < top { if scroll > top - sel { scroll - (top - sel) } else { 0 } } else { scroll + (sel - bottom) };
            let w = if target < max_scroll { target } else { max_scroll };
            if w > usize::MAX { usize::MAX as int } else { w }
        } else {
            scroll
        }
    } else {
        scroll
    }
}

/// The sidebar's scrollbar for `total` content rows in `available` rows:
/// a gray track in the right column between the top and bottom rows, and a
/// `█` thumb of `available² / total` rows (at least one) placed by the
/// scroll offset (taken modulo 65536).
pub open spec fn sidebar_scrollbar(v: ScreenView, scroll: int, total: int, available: int, area: Rect) -> ScreenView {
    if total > available && available > 0 && available <= 0xFFFF {
        let h = available;
        let thumb0 = h * h / total;
        let thumb = if thumb0 > 1 { thumb0 } else { 1 };
        let x = area.x + area.width - 1;
        let top = area.y + 1;
        let bottom = area.y + area.height - 1;
        let v1 = column_marked(v, x, top, bottom, '│', Color::Ansi(244), Some(Color::Ansi(234)));
        let s16 = scroll % 65536;
        let span = if h > thumb { h - thumb } else { 0 };
        let denom = total % 65536 - h;
        if denom > 0 && s16 <= 0xFFFF && span <= 0xFFFF && (span == 0 || s16 <= 0xFFFFint / span) {
            let pos = s16 * span / denom;
            let n = if thumb < 0x10000 { thumb } else { 0x10000 };
            let end = if top + pos + n < bottom { top + pos + n } else { bottom as int };
            column_marked(v1, x, top + pos, end, '█', Color::Ansi(244), None)
        } else {
            v1
        }
    } else {
        v
    }
}

/// The sidebar drawn into `area` over lines `items`, and its scroll offset
/// afterwards: the area filled with the sidebar background, a left border,
/// the lines from the scroll offset (clamped to the content) on the rows
/// between the top and bottom rows, the offset moved to keep the selected
/// entry in view, and the scrollbar.
pub open spec fn sidebar_drawn(v: ScreenView, s: SidebarState, area: Rect, items: Seq<ItemView>) -> (ScreenView, int) {
    let blank = Cell { char: ' ', fg: Color::Ansi(252), bg: Color::Ansi(234), style: plain_style(), wide: false };
    let border = Cell { char: '│', fg: Color::Ansi(240), bg: Color::Ansi(234), style: plain_style(), wide: false };
    let v1 = fill_box(v, area.y as int, area.y + area.height, area.x as int, area.x + area.width, blank);
    let v2 = fill_box(v1, area.y as int, area.y + area.height, area.x as int, area.x + 1, border);
    let max_width = text_width(area);
    let total = content_height(s);
    let max_scroll = if total > area.height { total - area.height } else { 0 };
    let scroll = if s.scroll_offset > max_scroll { max_scroll } else { s.scroll_offset as int };
    let available = if area.height >= 2 { area.height - 2 } else { 0 };
    let (v3, erows) = sidebar_rows(v2, items, 0, scroll, area.y + 1, 0, available, area.y + area.height - 1, area, max_width, Seq::empty());
    let scroll2 = kept_scroll(scroll, erows, s.mode, s.selected as int, area, max_scroll);
    (sidebar_scrollbar(v3, scroll2, total, available, area), scroll2)
}

/// Draw the sidebar's scrollbar (see [`sidebar_scrollbar`]).
fn draw_sidebar_scrollbar(screen: &mut Screen, scroll: usize, total: u128, available: usize, area: Rect)
    requires
        old(screen).wf(),
        area.x + area.width <= u16::MAX,
        area.y + area.height <= u16::MAX,
        area.height >= 1,
        area.width >= 1,
    ensures
        final(screen).wf(),
        final(screen)@.width == old(screen)@.width,
        final(screen)@.height == old(screen)@.height,
        same_outside_rows(old(screen)@, final(screen)@, area.y as int, area.y + area.height),
        final(screen)@ == sidebar_scrollbar(old(screen)@, scroll as int, total as int, available as int, area),
{
    proof {
        lemma_same_rows_refl(screen@, area.y as int, area.y + area.height);
    }
    let ghost v3 = screen@;
    if total > available as u128 && available > 0 && available <= 0xFFFF {
        let h = available as u128;
        assert(h * h <= 0xFFFF * 0xFFFF) by (nonlinear_arith)
            requires
                h <= 0xFFFF,
        ;
        let thumb0 = (h * h) / total;
        let thumb: u128 = if thumb0 > 1 { thumb0 } else { 1 };
        let sb_x: u16 = area.x + area.width - 1;
        let sb_top: u16 = area.y + 1;
        let sb_bottom: u16 = area.y + area.height - 1;
        let mut r = sb_top;
        while r < sb_bottom
            invariant
                screen.wf(),
                screen@.width == old(screen)@.width,
                screen@.height == old(screen)@.height,
                sb_top <= r,
                sb_top == area.y + 1,
                sb_bottom == area.y + area.height - 1,
                same_outside_rows(old(screen)@, screen@, area.y as int, area.y + area.height),
                column_marked(screen@, sb_x as int, r as int, sb_bottom as int, '│', Color::Ansi(244), Some(Color::Ansi(234)))
                    == column_marked(v3, sb_x as int, sb_top as int, sb_bottom as int, '│', Color::Ansi(244), Some(Color::Ansi(234))),
            decreases sb_bottom - r,
        {
            let found = match screen.get(r, sb_x) {
                Some(c) => Some(*c),
                None => None,
            };
            if let Some(cell) = found {
                let mut cell = cell;
                cell.char = '│';
                cell.wide = false;
                cell.fg = styles::scrollbar_fg();
                cell.bg = styles::sidebar_bg();
                let ghost g2 = screen@;
                screen.set_cell(r, sb_x, cell);
                proof {
                    lemma_same_rows_step(old(screen)@, g2, screen@, r as int, r + 1, area.y as int, area.y + area.height);
                }
            }
            r += 1;
        }
        let ghost v4 = screen@;
        let scroll16 = (scroll % 65536) as u128;
        let span = if h > thumb { h - thumb } else { 0 };
        let denom = (total % 65536) as i128 - h as i128;
        if denom > 0 && scroll16 <= 0xFFFF && span <= 0xFFFF && (span == 0 || scroll16 <= 0xFFFF / span) {
            assert(scroll16 * span <= 0xFFFF) by (nonlinear_arith)
                requires
                    span == 0 || scroll16 <= 0xFFFFu128 / span,
                    span <= 0xFFFF,
            ;
            let prod = scroll16 * span;
            let d = denom as u128;
            let pos = prod / d;
            assert(pos <= prod) by (nonlinear_arith)
                requires
                    pos == prod / d,
                    d >= 1,
            ;
            let ghost t0 = sb_top as int + pos as int;
            let ghost n = if thumb < 0x10000 { thumb as int } else { 0x10000int };
            let ghost tend = if t0 + n < sb_bottom { t0 + n } else { sb_bottom as int };
            let mut i: u128 = 0;
            while i < thumb && i < 0x10000
                invariant
                    pos <= 0xFFFF,
                    screen.wf(),
                    screen@.width == old(screen)@.width,
                    screen@.height == old(screen)@.height,
                    sb_top == area.y + 1,
                    sb_bottom == area.y + area.height - 1,
                    same_outside_rows(old(screen)@, screen@, area.y as int, area.y + area.height),
                    t0 == sb_top + pos,
                    n == (if thumb < 0x10000 { thumb as int } else { 0x10000int }),
                    tend == (if t0 + n < sb_bottom { t0 + n } else { sb_bottom as int }),
                    i <= n,
                    column_marked(screen@, sb_x as int, t0 + i, tend, '█', Color::Ansi(244), None)
                        == column_marked(v4, sb_x as int, t0, tend, '█', Color::Ansi(244), None),
                decreases thumb - i,
            {
                let row = sb_top as u128 + pos + i;
                if row < sb_bottom as u128 {
                    let found = match screen.get(row as u16, sb_x) {
                        Some(c) => Some(*c),
                        None => None,
                    };
                    if let Some(cell) = found {
                        let mut cell = cell;
                        cell.char = '█';
                        cell.wide = false;
                        cell.fg = styles::scrollbar_fg();
                        let ghost g3 = screen@;
                        screen.set_cell(row as u16, sb_x, cell);
                        proof {
                            lemma_same_rows_step(old(screen)@, g3, screen@, row as int, row + 1, area.y as int, area.y + area.height);
                        }
                    }
                }
                i += 1;
            }
        }
    }
}

/// Lines of the sidebar do not depend on its scroll offset.
proof fn lemma_items_of_scroll(s1: SidebarState, s2: SidebarState, max_width: int, items: Seq<ItemView>)
    requires
        s1 == (SidebarState { scroll_offset: s1.scroll_offset, ..s2 }),
        items_of(s1, max_width, items),
    ensures
        items_of(s2, max_width, items),
{
    if !s1.mode && s1.structure.len() > 0 {
        let order = choose|order: Seq<(Seq<char>, bool)>|
            listing_sorted(order)
            && order.to_multiset() == shown_entries(parsed_structure(s1.structure), true).to_multiset()
            && keeps_ties(shown_entries(parsed_structure(s1.structure), true), order)
            && #[trigger] built_items(s1, max_width, order) == items;
        assert(built_items(s2, max_width, order) == items);
    }
}

impl Widget for SidebarWidget {
    open spec fn inv(&self) -> bool {
        true
    }

    /// Draw the sidebar: a left border, the project, context and file
    /// sections scrolled to the offset (the selected entry kept in view), and
    /// a scrollbar when the content is taller than the area. Nothing outside
    /// the area's rows changes; of the sidebar, only the scroll offset.
    #[verifier::rlimit(40)]
    fn render(&mut self, area: Rect, screen: &mut Screen)
        ensures
            same_outside_rows(old(screen)@, final(screen)@, area.y as int, area.y + area.height),
            final(self)@ == (SidebarState { scroll_offset: final(self)@.scroll_offset, ..old(self)@ }),
            !old(self)@.visible || area.width == 0 || area.height == 0 ==> final(self)@ == old(self)@ && final(screen)@
                == old(screen)@,
            old(self)@.visible && area.width > 0 && area.height > 0 ==> exists|items: Seq<ItemView>|
                #[trigger] items_of(old(self)@, text_width(area), items)
                && (final(screen)@, final(self)@.scroll_offset as int) == sidebar_drawn(old(screen)@, old(self)@, area, items),
    {
        proof {
            lemma_same_rows_refl(screen@, area.y as int, area.y + area.height);
        }
        if !self.visible || area.is_empty() {
            return;
        }
        screen.fill_rect(area, Cell {
            char: ' ',
            fg: styles::sidebar_fg(),
            bg: styles::sidebar_bg(),
            style: Style::new(),
            wide: false,
        });
        proof {
            lemma_fill_box(old(screen)@, screen@, area.y as int, area.y + area.height, area.x as int, area.x + area.width,
                Cell { char: ' ', fg: Color::Ansi(252), bg: Color::Ansi(234), style: plain_style(), wide: false });
        }
        let ghost g0 = screen@;
        screen.vline(area.x, area.y, area.y + area.height - 1, '│', styles::sidebar_border(), styles::sidebar_bg());
        proof {
            lemma_same_rows_step(old(screen)@, g0, screen@, area.y as int, area.y + area.height, area.y as int, area.y + area.height);
            lemma_fill_box(g0, screen@, area.y as int, area.y + area.height, area.x as int, area.x + 1,
                Cell { char: '│', fg: Color::Ansi(240), bg: Color::Ansi(234), style: plain_style(), wide: false });
        }
        let ghost v2 = screen@;
        let max_width: usize = if area.width >= 4 { (area.width - 4) as usize } else { 0 };
        let visible_rows = area.height as u128;
        let total = self.content_height();
        let max_scroll: u128 = if total > visible_rows { total - visible_rows } else { 0 };
        if self.scroll_offset as u128 > max_scroll {
            self.scroll_offset = max_scroll as usize;
        }
        let items = self.build_items(max_width);
        let ghost iv = items_view(items@);
        proof {
            lemma_items_of_scroll(self@, old(self)@, max_width as int, iv);
            assert(iv.len() == items@.len());
        }
        let skip = self.scroll_offset;
        let available: usize = if area.height >= 2 { (area.height - 2) as usize } else { 0 };
        let last_row: u16 = area.y + area.height - 1;
        let mut screen_row: u16 = area.y + 1;
        let mut drawn: usize = 0;
        let mut entry_rows: Vec<u16> = Vec::new();
        proof {
            assert(entry_rows@.map_values(|r: u16| r as int) =~= Seq::<int>::empty());
        }
        let mut idx: usize = 0;
        while idx < items.len()
            invariant
                screen.wf(),
                screen@.width == old(screen)@.width,
                screen@.height == old(screen)@.height,
                area.x + area.width <= u16::MAX,
                area.y + area.height <= u16::MAX,
                area.height >= 1,
                last_row == area.y + area.height - 1,
                area.y + 1 <= screen_row <= last_row + 1,
                same_outside_rows(old(screen)@, screen@, area.y as int, area.y + area.height),
                iv == items_view(items@),
                iv.len() == items@.len(),
                sidebar_rows(screen@, iv, idx as int, skip as int, screen_row as int, drawn as int, available as int,
                    last_row as int, area, max_width as int, entry_rows@.map_values(|r: u16| r as int))
                    == sidebar_rows(v2, iv, 0, skip as int, area.y + 1, 0, available as int, last_row as int, area,
                    max_width as int, Seq::empty()),
            ensures
                screen.wf(),
                screen@.width == old(screen)@.width,
                screen@.height == old(screen)@.height,
                same_outside_rows(old(screen)@, screen@, area.y as int, area.y + area.height),
                (screen@, entry_rows@.map_values(|r: u16| r as int))
                    == sidebar_rows(v2, iv, 0, skip as int, area.y + 1, 0, available as int, last_row as int, area,
                    max_width as int, Seq::empty()),
            decreases items@.len() - idx,
        {
            if idx < skip {
                idx += 1;
                continue;
            }
            if drawn >= available || screen_row >= last_row {
                break;
            }
            let ghost e0 = entry_rows@;
            if let SidebarItem::StructureEntry { .. } = &items[idx] {
                entry_rows.push(screen_row);
            }
            proof {
                assert(iv[idx as int] == item_view(items@[idx as int]));
                assert(entry_rows@.map_values(|r: u16| r as int) =~= (if iv[idx as int] is StructureEntry {
                    e0.map_values(|r: u16| r as int).push(screen_row as int)
                } else {
                    e0.map_values(|r: u16| r as int)
                }));
            }
            let ghost g1 = screen@;
            self.draw_item(&items[idx], screen, screen_row, area, max_width);
            proof {
                lemma_same_rows_step(old(screen)@, g1, screen@, screen_row as int, screen_row + 1, area.y as int, area.y + area.height);
            }
            screen_row = screen_row + 1;
            drawn = drawn + 1;
            idx += 1;
        }
        let ghost erows = entry_rows@.map_values(|r: u16| r as int);
        let ghost scroll0 = skip as int;
        let ghost v3 = screen@;
        if self.structure_mode && entry_rows.len() > 0 && self.structure_selected < entry_rows.len() {
            let sel_row = entry_rows[self.structure_selected];
            let top: u16 = area.y + 1;
            let bottom: u16 = if area.height >= 2 { area.y + area.height - 2 } else { area.y };
            if sel_row < top || sel_row > bottom {
                let target: u128 = if sel_row < top {
                    let d = (top - sel_row) as usize;
                    (if self.scroll_offset > d { self.scroll_offset - d } else { 0 }) as u128
                } else {
                    self.scroll_offset as u128 + (sel_row - bottom) as u128
                };
                let v = if target < max_scroll { target } else { max_scroll };
                self.scroll_offset = if v > usize::MAX as u128 { usize::MAX } else { v as usize };
            }
        }
        proof {
            assert(self.scroll_offset == kept_scroll(scroll0, erows, self@.mode, self@.selected as int, area, max_scroll as int));
        }
        draw_sidebar_scrollbar(screen, self.scroll_offset, total, available, area);
        proof {
            assert((screen@, self@.scroll_offset as int) == sidebar_drawn(old(screen)@, old(self)@, area, iv));
        }
    }

    fn handle_event(&mut self, event: &Event) -> (r: Action)
        ensures
            (final(self)@, r@) == sidebar_event(old(self)@, *event),
    {
        self.handle(event)
    }
}

// ── Laws ─────────────────────────────────────────────────────────────────────

/// A key pressed without modifiers.
pub open spec fn key_press(key: Key) -> Event {
    Event::Key(KeyEvent { key, modifiers: Modifiers { ctrl: false, alt: false, shift: false } })
}

/// Entering the selected directory with Enter and coming back with Escape
/// returns to the same directory with the same selection and history,
/// whatever listing was taken in between.
pub proof fn lemma_enter_then_back(s: SidebarState, listing: Seq<(Seq<char>, bool)>)
    requires
        s.mode,
        !s.filter_active,
        s.selected < filtered(s.entries, s.filter).len(),
        filtered(s.entries, s.filter)[s.selected as int].1,
    ensures
        ({
            let s1 = sidebar_event(s, key_press(Key::Enter)).0;
            let s2 = sidebar_event(SidebarState { entries: listing, pending: false, ..s1 }, key_press(Key::Escape)).0;
            &&& s1.cwd == join_path(s.cwd, filtered(s.entries, s.filter)[s.selected as int].0)
            &&& s2.cwd == s.cwd
            &&& s2.selected == s.selected
            &&& s2.nav == s.nav
            &&& s2.mode
        }),
{
    let s1 = sidebar_event(s, key_press(Key::Enter)).0;
    assert(s1.nav.drop_last() =~= s.nav);
}

/// Pressing `.` twice in the browser shows hidden files as before.
pub proof fn lemma_hidden_toggle_twice(s: SidebarState)
    requires
        s.mode,
        !s.filter_active,
    ensures
        sidebar_event(sidebar_event(s, key_press(Key::Char('.'))).0, key_press(Key::Char('.'))).0.show_hidden
            == s.show_hidden,
{
}

/// Scrolling down by `n` rows and back up by `n` returns to the same
/// offset, when the offset does not saturate.
pub proof fn lemma_scroll_down_up(s: SidebarState, n: int)
    requires
        n >= 0,
        s.scroll_offset + n <= usize::MAX,
    ensures
        scrolled(scrolled(s, n), -n).scroll_offset == s.scroll_offset,
{
}

/// Every entry the filter shows is an entry of the listing whose lowercase
/// name contains the lowercase filter; without a filter all are shown.
pub proof fn lemma_filter_shows_matches(entries: Seq<(Seq<char>, bool)>, filter: Seq<char>)
    ensures
        filter.len() == 0 ==> filtered(entries, filter) == entries,
        forall|i: int| 0 <= i < filtered(entries, filter).len() ==> entries.contains(#[trigger] filtered(entries, filter)[i]),
        filter.len() > 0 ==> forall|i: int| 0 <= i < filtered(entries, filter).len()
            ==> contains_sub(lowercase(#[trigger] filtered(entries, filter)[i].0), lowercase(filter)),
{
    if filter.len() > 0 {
        lemma_matching(entries, lowercase(filter));
    }
}

proof fn lemma_matching(entries: Seq<(Seq<char>, bool)>, f: Seq<char>)
    ensures
        forall|i: int| 0 <= i < matching(entries, f).len() ==> entries.contains(#[trigger] matching(entries, f)[i]),
        forall|i: int| 0 <= i < matching(entries, f).len() ==> contains_sub(lowercase(#[trigger] matching(entries, f)[i].0), f),
    decreases entries.len(),
{
    if entries.len() > 0 {
        let rest = entries.drop_last();
        lemma_matching(rest, f);
        let m = matching(entries, f);
        assert forall|i: int| 0 <= i < m.len() implies entries.contains(#[trigger] m[i]) by {
            if i < matching(rest, f).len() {
                let e = matching(rest, f)[i];
                assert(rest.contains(e));
                let k = choose|k: int| 0 <= k < rest.len() && rest[k] == e;
                assert(entries[k] == e);
            } else {
                assert(entries[entries.len() - 1] == m[i]);
            }
        }
    }
}

} // verus!
