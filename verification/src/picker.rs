//! The picker's state and its transitions: the query, the selected item,
//! and the scroll offset that keeps the selection in the visible window.

use vstd::prelude::*;
use crate::picker_order::PickerHost;
use crate::picker_order::PickerHostView;
use crate::picker_order::recency_of;
use crate::picker_order::join_recent;
use crate::order::sorted;
use crate::order::sort;
use crate::hosts::Host;
use crate::history::RecentHost;
use crate::picker_order::group_of;
use crate::picker_order::same_group;
use crate::picker_filter::matching;
use crate::picker_filter::lemma_matching;

verus! {

/// What the picker is at between two keys.
#[derive(Debug, Clone)]
pub struct PickerState {
    /// The text typed so far.
    pub query: String,
    /// The selected item, counted among the items that the query matches.
    pub selected: usize,
    /// The first row of the list that the window shows.
    pub scroll_offset: usize,
}

/// What a `PickerState` holds.
pub struct PickerStateView {
    pub query: Seq<char>,
    pub selected: usize,
    pub scroll_offset: usize,
}

impl View for PickerState {
    type V = PickerStateView;

    open spec fn view(&self) -> PickerStateView {
        PickerStateView {
            query: self.query@,
            selected: self.selected,
            scroll_offset: self.scroll_offset,
        }
    }
}

/// A key as the picker tells keys apart.
#[derive(Debug, Clone, Copy, PartialEq, Eq, Structural)]
pub enum PickerKey {
    /// A character to add to the query.
    Char(char),
    Backspace,
    Up,
    Down,
    Enter,
    Escape,
    /// The key combination that interrupts the program.
    Interrupt,
    /// Any other key: it changes nothing.
    Other,
}

/// Where the picker stands after a key.
#[derive(Debug, Clone, Copy, PartialEq, Eq, Structural)]
pub enum KeyOutcome {
    /// The picker goes on.
    Editing,
    /// The user chose the item with this index.
    Confirmed(usize),
    /// The user left the picker without a choice.
    Cancelled,
}

/// Whether the filtered items are shown under group headers: one of them
/// carries a tag.
pub open spec fn shows_headers(items: Seq<PickerHost>, filtered: Seq<usize>) -> bool {
    exists|k: int|
        0 <= k < filtered.len() && items[(#[trigger] filtered[k]) as int]@.host.tags.len() > 0
}

/// Whether a header row stands before the `k`-th filtered item: it is the
/// first, or stands in another group than the one before it.
pub open spec fn header_at(items: Seq<PickerHost>, filtered: Seq<usize>, k: int) -> bool {
    k == 0 || group_of(items[filtered[k] as int]@.host) != group_of(
        items[filtered[k - 1] as int]@.host,
    )
}

/// The number of header rows before and between the first `n` filtered
/// items.
pub open spec fn headers_upto(items: Seq<PickerHost>, filtered: Seq<usize>, n: int) -> int
    decreases n,
{
    if n <= 0 {
        0
    } else {
        headers_upto(items, filtered, n - 1) + if header_at(items, filtered, n - 1) {
            1int
        } else {
            0int
        }
    }
}

/// The row of the list, header rows counted, on which the `selected`-th
/// filtered item stands; for a `selected` past the last item, the number of
/// rows in all.
pub open spec fn row_of(
    items: Seq<PickerHost>,
    filtered: Seq<usize>,
    selected: int,
    show_headers: bool,
) -> int {
    let n = if selected < filtered.len() {
        selected + 1
    } else {
        filtered.len() as int
    };
    let before = if selected < filtered.len() {
        selected
    } else {
        filtered.len() as int
    };
    before + if show_headers {
        headers_upto(items, filtered, n)
    } else {
        0
    }
}

/// There are no more header rows than items.
pub proof fn lemma_headers_bound(items: Seq<PickerHost>, filtered: Seq<usize>, n: int)
    requires
        0 <= n,
    ensures
        0 <= headers_upto(items, filtered, n) <= n,
    decreases n,
{
    if n > 0 {
        lemma_headers_bound(items, filtered, n - 1);
    }
}

/// Whether every index of `filtered` is one of `items`.
pub open spec fn in_range(items: Seq<PickerHost>, filtered: Seq<usize>) -> bool {
    forall|k: int| 0 <= k < filtered.len() ==> (#[trigger] filtered[k]) < items.len()
}

/// Whether one of the filtered items carries a tag.
pub fn any_tagged(items: &[PickerHost], filtered: &[usize]) -> (r: bool)
    requires
        in_range(items@, filtered@),
    ensures
        r == shows_headers(items@, filtered@),
{
    let mut k: usize = 0;
    while k < filtered.len()
        invariant
            k <= filtered@.len(),
            in_range(items@, filtered@),
            forall|j: int|
                0 <= j < k ==> items@[(#[trigger] filtered@[j]) as int]@.host.tags.len() == 0,
        decreases filtered@.len() - k,
    {
        if items[filtered[k]].host.tags.len() > 0 {
            return true;
        }
        k += 1;
    }
    false
}

/// The row of the list on which the `selected`-th filtered item stands.
pub fn render_row_of(
    items: &[PickerHost],
    filtered: &[usize],
    selected: usize,
    show_headers: bool,
) -> (row: usize)
    requires
        in_range(items@, filtered@),
        2 * filtered@.len() <= usize::MAX,
    ensures
        row == row_of(items@, filtered@, selected as int, show_headers),
        row <= 2 * filtered@.len(),
{
    let n: usize = filtered.len();
    let mut row: usize = 0;
    let mut i: usize = 0;
    while i < n
        invariant
            n == filtered@.len(),
            2 * n <= usize::MAX,
            in_range(items@, filtered@),
            i <= n,
            i <= selected,
            row == i + if show_headers {
                headers_upto(items@, filtered@, i as int)
            } else {
                0
            },
            0 <= headers_upto(items@, filtered@, i as int) <= i,
        decreases n - i,
    {
        proof {
            lemma_headers_bound(items@, filtered@, i + 1);
        }
        if show_headers {
            let header = i == 0 || !same_group(
                &items[filtered[i]].host,
                &items[filtered[i - 1]].host,
            );
            if header {
                row += 1;
            }
        }
        if i == selected {
            return row;
        }
        row += 1;
        i += 1;
    }
    row
}

/// The scroll offset that shows `row` in a window of `visible` rows that
/// stood at `offset`: the window moves up to a row above it, down to a row
/// below it until that row is its last, and stays where the row is inside.
pub open spec fn scrolled(offset: int, row: int, visible: int) -> int {
    if row < offset {
        row
    } else if visible > 0 && row >= offset + visible {
        row + 1 - visible
    } else {
        offset
    }
}

/// A window of at least one row, scrolled to a row, shows that row.
pub proof fn lemma_scrolled_shows(offset: int, row: int, visible: int)
    requires
        0 <= offset,
        0 <= row,
        visible > 0,
    ensures
        0 <= scrolled(offset, row, visible) <= row < scrolled(offset, row, visible) + visible,
{
}

/// The scroll offset that shows `row`.
pub fn adjust_scroll(offset: usize, row: usize, visible: usize) -> (r: usize)
    ensures
        r == scrolled(offset as int, row as int, visible as int),
        visible > 0 ==> r <= row < r + visible,
{
    if row < offset {
        row
    } else if visible > 0 && row - offset >= visible {
        row - (visible - 1)
    } else {
        offset
    }
}

/// The selection kept among `matched` items: one past the last item falls
/// back on the last.
pub open spec fn clamped(selected: usize, matched: nat) -> usize {
    if selected >= matched && matched > 0 {
        (matched - 1) as usize
    } else {
        selected
    }
}

/// The state made ready to be shown: the selection kept among the filtered
/// items, and the window scrolled to it.
pub open spec fn settled(
    s: PickerStateView,
    items: Seq<PickerHost>,
    filtered: Seq<usize>,
    visible: usize,
) -> PickerStateView {
    let sel = clamped(s.selected, filtered.len());
    let row = row_of(items, filtered, sel as int, shows_headers(items, filtered));
    PickerStateView {
        query: s.query,
        selected: sel,
        scroll_offset: scrolled(s.scroll_offset as int, row, visible as int) as usize,
    }
}

/// Whether the window of `visible` rows shows the row of the selection.
pub open spec fn in_window(
    s: PickerStateView,
    items: Seq<PickerHost>,
    filtered: Seq<usize>,
    visible: usize,
) -> bool {
    let row = row_of(items, filtered, s.selected as int, shows_headers(items, filtered));
    s.scroll_offset <= row < s.scroll_offset + visible
}

/// The state after a key, where the picker goes on. `matched` is the number
/// of items that the query matched when the key came.
pub open spec fn pressed(s: PickerStateView, key: PickerKey, matched: nat) -> PickerStateView {
    match key {
        PickerKey::Char(c) => PickerStateView { query: s.query.push(c), selected: 0, ..s },
        PickerKey::Backspace => PickerStateView {
            query: if s.query.len() > 0 {
                s.query.drop_last()
            } else {
                s.query
            },
            selected: 0,
            ..s
        },
        PickerKey::Up => PickerStateView {
            selected: if s.selected > 0 {
                (s.selected - 1) as usize
            } else {
                s.selected
            },
            ..s
        },
        PickerKey::Down => PickerStateView {
            selected: if s.selected + 1 < matched {
                (s.selected + 1) as usize
            } else {
                s.selected
            },
            ..s
        },
        _ => s,
    }
}

/// Where the picker stands after a key: escape and interrupt leave it,
/// enter chooses the selected item where the query matches any, and after
/// every other key the picker goes on.
pub open spec fn outcome_of(s: PickerStateView, key: PickerKey, filtered: Seq<usize>) -> KeyOutcome {
    match key {
        PickerKey::Escape => KeyOutcome::Cancelled,
        PickerKey::Interrupt => KeyOutcome::Cancelled,
        PickerKey::Enter => if filtered.len() > 0 {
            KeyOutcome::Confirmed(filtered[clamped(s.selected, filtered.len()) as int])
        } else {
            KeyOutcome::Editing
        },
        _ => KeyOutcome::Editing,
    }
}

impl PickerState {
    /// The state in which the picker starts: the query as given, or empty,
    /// and the first item selected.
    pub fn new(initial_filter: Option<&str>) -> (s: PickerState)
        ensures
            s@.query == match initial_filter {
                Some(f) => f@,
                None => Seq::<char>::empty(),
            },
            s@.selected == 0,
            s@.scroll_offset == 0,
    {
        let query = match initial_filter {
            Some(f) => f.to_owned(),
            None => String::new(),
        };
        PickerState { query, selected: 0, scroll_offset: 0 }
    }

    /// Makes the state ready to be shown: keeps the selection among the
    /// filtered items and scrolls the window to it. In a window of at least
    /// one row the selection's row is then visible.
    pub fn settle(&mut self, items: &[PickerHost], filtered: &[usize], visible: usize)
        requires
            in_range(items@, filtered@),
            2 * filtered@.len() <= usize::MAX,
        ensures
            final(self)@ == settled(old(self)@, items@, filtered@, visible),
            visible > 0 ==> in_window(final(self)@, items@, filtered@, visible),
            filtered@.len() > 0 ==> final(self)@.selected < filtered@.len(),
    {
        let matched = filtered.len();
        if self.selected >= matched && matched > 0 {
            self.selected = matched - 1;
        }
        let show_headers = any_tagged(items, filtered);
        let row = render_row_of(items, filtered, self.selected, show_headers);
        self.scroll_offset = adjust_scroll(self.scroll_offset, row, visible);
    }

    /// Takes a key. `filtered` holds the items that the query matches as it
    /// stands before the key. A character goes to the end of the query and
    /// backspace takes the last one off, both with the first item selected
    /// after them; up and down move the selection by one and stop at the
    /// first and the last item.
    pub fn press(&mut self, key: PickerKey, filtered: &[usize]) -> (r: KeyOutcome)
        ensures
            r == outcome_of(old(self)@, key, filtered@),
            r == KeyOutcome::Editing ==> final(self)@ == pressed(
                old(self)@,
                key,
                filtered@.len(),
            ),
            r != KeyOutcome::Editing ==> final(self)@ == old(self)@,
    {
        match key {
            PickerKey::Escape => KeyOutcome::Cancelled,
            PickerKey::Interrupt => KeyOutcome::Cancelled,
            PickerKey::Enter => {
                let matched = filtered.len();
                if matched == 0 {
                    KeyOutcome::Editing
                } else if self.selected >= matched {
                    KeyOutcome::Confirmed(filtered[matched - 1])
                } else {
                    KeyOutcome::Confirmed(filtered[self.selected])
                }
            },
            PickerKey::Up => {
                if self.selected > 0 {
                    self.selected = self.selected - 1;
                }
                KeyOutcome::Editing
            },
            PickerKey::Down => {
                let matched = filtered.len();
                if self.selected < matched && self.selected + 1 < matched {
                    self.selected = self.selected + 1;
                }
                KeyOutcome::Editing
            },
            PickerKey::Backspace => {
                self.query.pop();
                self.selected = 0;
                KeyOutcome::Editing
            },
            PickerKey::Char(c) => {
                self.query.push(c);
                self.selected = 0;
                KeyOutcome::Editing
            },
            PickerKey::Other => {
                KeyOutcome::Editing
            },
        }
    }
}

/// Why the picker cannot open.
#[derive(Debug, Clone, Copy, PartialEq, Eq, Structural)]
pub enum PickerError {
    /// There is no host to pick.
    NoHosts,
}

/// A host as the picker shows it, given the times on record.
pub open spec fn picker_item(host: Host, recent: Seq<RecentHost>) -> PickerHostView {
    PickerHostView { host: host@, last_connected: recency_of(recent, host@.alias) }
}

/// Whether `item` is one of the hosts, with the time on record for it.
pub open spec fn is_host_item(item: PickerHost, hosts: Seq<Host>, recent: Seq<RecentHost>) -> bool {
    exists|k: int| 0 <= k < hosts.len() && item@ == picker_item(#[trigger] hosts[k], recent)
}

/// Whether `host` is among the items, with the time on record for it.
pub open spec fn is_shown(host: Host, items: Seq<PickerHost>, recent: Seq<RecentHost>) -> bool {
    exists|i: int| 0 <= i < items.len() && (#[trigger] items[i])@ == picker_item(host, recent)
}

/// Whether the items are the hosts, in some order: each item is a host
/// with the time on record for it, and each host is among the items.
pub open spec fn shows_all(items: Seq<PickerHost>, hosts: Seq<Host>, recent: Seq<RecentHost>) -> bool {
    &&& items.len() == hosts.len()
    &&& forall|i: int| 0 <= i < items.len() ==> #[trigger] is_host_item(items[i], hosts, recent)
    &&& forall|k: int| 0 <= k < hosts.len() ==> #[trigger] is_shown(hosts[k], items, recent)
}

/// Items that are the joined hosts in another order show all hosts.
proof fn lemma_shows_all(
    items: Seq<PickerHost>,
    joined: Seq<PickerHost>,
    hosts: Seq<Host>,
    recent: Seq<RecentHost>,
)
    requires
        items.to_multiset() == joined.to_multiset(),
        joined.len() == hosts.len(),
        forall|k: int|
            0 <= k < hosts.len() ==> (#[trigger] joined[k])@ == picker_item(hosts[k], recent),
    ensures
        shows_all(items, hosts, recent),
{
    crate::order::lemma_same_members(items, joined);
    assert forall|i: int| 0 <= i < items.len() implies #[trigger] is_host_item(
        items[i],
        hosts,
        recent,
    ) by {
        assert(joined.contains(items[i]));
        let k = choose|k: int| 0 <= k < joined.len() && joined[k] == items[i];
        assert(joined[k]@ == picker_item(hosts[k], recent));
    }
    assert forall|k: int| 0 <= k < hosts.len() implies #[trigger] is_shown(
        hosts[k],
        items,
        recent,
    ) by {
        assert(joined[k]@ == picker_item(hosts[k], recent));
        assert(items.contains(joined[k]));
        let i = choose|i: int| 0 <= i < items.len() && items[i] == joined[k];
        assert(items[i]@ == picker_item(hosts[k], recent));
    }
}

/// Opens the picker: the hosts become its items, each with the time of the
/// last connection to it, in the order in which the picker shows them, and
/// the query starts as given. Without a host there is nothing to pick, and
/// the picker does not open.
pub fn open_picker(hosts: &[Host], recent: &[RecentHost], initial_filter: Option<&str>) -> (r:
    Result<(Vec<PickerHost>, PickerState), PickerError>)
    ensures
        r is Err <==> hosts@.len() == 0,
        match r {
            Ok((items, state)) => {
                &&& sorted(items@)
                &&& shows_all(items@, hosts@, recent@)
                &&& state@.query == match initial_filter {
                    Some(f) => f@,
                    None => Seq::<char>::empty(),
                }
                &&& state@.selected == 0
                &&& state@.scroll_offset == 0
            },
            Err(e) => e == PickerError::NoHosts,
        },
{
    if hosts.len() == 0 {
        return Err(PickerError::NoHosts);
    }
    let joined = join_recent(hosts, recent);
    let ghost j = joined@;
    let items = sort(joined);
    proof {
        lemma_shows_all(items@, j, hosts@, recent@);
    }
    Ok((items, PickerState::new(initial_filter)))
}

/// The state after one round of the picker, where it goes on: the state is
/// made ready and shown, then a key is taken.
pub open spec fn round(
    s: PickerStateView,
    key: PickerKey,
    items: Seq<PickerHost>,
    visible: usize,
) -> PickerStateView {
    let f = matching(items, s.query);
    pressed(settled(s, items, f, visible), key, f.len())
}

/// The state after a round for each of `keys`.
pub open spec fn after_keys(
    s: PickerStateView,
    keys: Seq<PickerKey>,
    items: Seq<PickerHost>,
    visible: usize,
) -> PickerStateView
    decreases keys.len(),
{
    if keys.len() == 0 {
        s
    } else {
        after_keys(round(s, keys[0], items, visible), keys.drop_first(), items, visible)
    }
}

/// A state that was made ready shows its selection, in a window of at least
/// one row.
pub proof fn lemma_settled_in_window(
    s: PickerStateView,
    items: Seq<PickerHost>,
    filtered: Seq<usize>,
    visible: usize,
)
    requires
        visible > 0,
        2 * filtered.len() <= usize::MAX,
    ensures
        in_window(settled(s, items, filtered, visible), items, filtered, visible),
{
    let sel = clamped(s.selected, filtered.len());
    let n = if sel < filtered.len() {
        sel + 1
    } else {
        filtered.len() as int
    };
    lemma_headers_bound(items, filtered, n);
    let row = row_of(items, filtered, sel as int, shows_headers(items, filtered));
    lemma_scrolled_shows(s.scroll_offset as int, row, visible as int);
}

/// The scroll window invariant: whatever state the picker starts in and
/// whatever keys it takes, each time the list is shown the row of the
/// selected item lies inside the window, provided the window has a row.
pub proof fn lemma_selection_stays_visible(
    s: PickerStateView,
    keys: Seq<PickerKey>,
    items: Seq<PickerHost>,
    visible: usize,
)
    requires
        visible > 0,
        2 * items.len() <= usize::MAX,
    ensures
        ({
            let e = after_keys(s, keys, items, visible);
            let f = matching(items, e.query);
            in_window(settled(e, items, f, visible), items, f, visible)
        }),
{
    let e = after_keys(s, keys, items, visible);
    lemma_matching(items, e.query);
    lemma_settled_in_window(e, items, matching(items, e.query), visible);
}

} // verus!
