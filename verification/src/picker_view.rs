//! What the picker shows: the rows of the list, group headers among them,
//! and the search line above it.

use vstd::prelude::*;
use vstd::string::StringExecFns;
use crate::text::views;
use crate::split::join;
use crate::split::join_strings;
use crate::numbers::decimal;
use crate::layout::padded;
use crate::layout::push_padded_text;
use crate::layout::shown_target;
use crate::layout::target_label;
use crate::numbers::push_decimal;
use crate::hosts::HostView;
use crate::picker_order::PickerHost;
use crate::picker_order::PickerHostView;
use crate::picker_order::group_of;
use crate::picker_order::first_tag;
use crate::picker_order::same_group;
use crate::picker::shows_headers;
use crate::picker::header_at;
use crate::picker::headers_upto;
use crate::picker::row_of;
use crate::picker::in_range;
use crate::picker::any_tagged;
use crate::picker::lemma_headers_bound;
use crate::relative_time::relative_time;
use crate::relative_time::format_relative_time;

verus! {

/// The tags as the list shows them: in square brackets, with a comma and a
/// space between them; nothing where there are none.
pub open spec fn shown_tags(h: HostView) -> Seq<char> {
    if h.tags.len() == 0 {
        Seq::empty()
    } else {
        "["@.add(join(h.tags, ", "@)).add("]"@)
    }
}

/// The time of the last connection as the list shows it.
pub open spec fn shown_time(item: PickerHostView, now: int) -> Seq<char> {
    match item.last_connected {
        Some(t) => relative_time(t, now),
        None => Seq::empty(),
    }
}

/// The text of an item's row: a mark for the selected item, then alias,
/// target and tags in columns of 16, 24 and 20 characters, then the time.
pub open spec fn item_text(item: PickerHostView, is_selected: bool, now: int) -> Seq<char> {
    (if is_selected {
        "> "@
    } else {
        "  "@
    }).add(padded(item.host.alias, 16)).add(" "@).add(padded(shown_target(item.host), 24)).add(
        " "@,
    ).add(padded(shown_tags(item.host), 20)).add(" "@).add(shown_time(item, now))
}

/// The text of a group's header row; the hosts without tags stand under
/// `other`.
pub open spec fn header_text(group: Option<Seq<char>>) -> Seq<char> {
    "  "@.add(
        match group {
            Some(g) => g,
            None => "other"@,
        },
    )
}

/// The text of an item's row.
pub fn item_row_text(item: &PickerHost, is_selected: bool, now: i64) -> (r: String)
    ensures
        r@ == item_text(item@, is_selected, now as int),
{
    let h = &item.host;
    let mut r = if is_selected {
        "> ".to_owned()
    } else {
        "  ".to_owned()
    };
    push_padded_text(&mut r, h.alias.as_str(), 16);
    r.append(" ");
    let target = target_label(h);
    push_padded_text(&mut r, target.as_str(), 24);
    r.append(" ");
    let tags = if h.tags.len() == 0 {
        String::new()
    } else {
        let mut t = "[".to_owned();
        let j = join_strings(h.tags.as_slice(), ", ");
        t.append(j.as_str());
        t.append("]");
        t
    };
    push_padded_text(&mut r, tags.as_str(), 20);
    r.append(" ");
    match &item.last_connected {
        Some(t) => {
            let time = format_relative_time(t.as_str(), now);
            r.append(time.as_str());
        },
        None => {
            assert(r@ =~= r@.add(Seq::<char>::empty()));
        },
    }
    r
}

/// One row of the list.
#[derive(Debug, Clone)]
pub enum Row {
    /// The name of a group, above its items.
    Header(String),
    /// An item: its index among all items, whether it is the selected one,
    /// and its text.
    Item { index: usize, selected: bool, text: String },
    /// A line shown in place of the list.
    Notice(String),
}

/// What a `Row` holds.
pub enum RowView {
    Header(Seq<char>),
    Item { index: usize, selected: bool, text: Seq<char> },
    Notice(Seq<char>),
}

impl View for Row {
    type V = RowView;

    open spec fn view(&self) -> RowView {
        match self {
            Row::Header(t) => RowView::Header(t@),
            Row::Item { index, selected, text } => RowView::Item {
                index: *index,
                selected: *selected,
                text: text@,
            },
            Row::Notice(t) => RowView::Notice(t@),
        }
    }
}

/// The views of a list of rows.
pub open spec fn row_views(rows: Seq<Row>) -> Seq<RowView> {
    Seq::new(rows.len(), |i: int| rows[i]@)
}

/// The row of the `k`-th filtered item.
pub open spec fn item_row(
    items: Seq<PickerHost>,
    filtered: Seq<usize>,
    selected: int,
    now: int,
    k: int,
) -> RowView {
    RowView::Item {
        index: filtered[k],
        selected: k == selected,
        text: item_text(items[filtered[k] as int]@, k == selected, now),
    }
}

/// The rows of the first `n` filtered items: each item's row, and before
/// the first item of each group the group's header, where headers are
/// shown.
pub open spec fn rows_upto(
    items: Seq<PickerHost>,
    filtered: Seq<usize>,
    selected: int,
    show_headers: bool,
    now: int,
    n: int,
) -> Seq<RowView>
    decreases n,
{
    if n <= 0 {
        Seq::empty()
    } else {
        let prev = rows_upto(items, filtered, selected, show_headers, now, n - 1);
        let with_header = if show_headers && header_at(items, filtered, n - 1) {
            prev.push(RowView::Header(header_text(group_of(items[filtered[n - 1] as int]@.host))))
        } else {
            prev
        };
        with_header.push(item_row(items, filtered, selected, now, n - 1))
    }
}

/// The rows of the list: those of the filtered items, or a notice where the
/// query matches nothing.
pub open spec fn list_rows(
    items: Seq<PickerHost>,
    filtered: Seq<usize>,
    selected: int,
    now: int,
) -> Seq<RowView> {
    if filtered.len() == 0 {
        seq![RowView::Notice("  No matches"@)]
    } else {
        rows_upto(
            items,
            filtered,
            selected,
            shows_headers(items, filtered),
            now,
            filtered.len() as int,
        )
    }
}

/// The rows number as many as the items and their headers, and each item
/// stands on the row that `row_of` gives for it.
pub proof fn lemma_rows(
    items: Seq<PickerHost>,
    filtered: Seq<usize>,
    selected: int,
    show_headers: bool,
    now: int,
    n: int,
)
    requires
        0 <= n <= filtered.len(),
    ensures
        rows_upto(items, filtered, selected, show_headers, now, n).len() == n + if show_headers {
            headers_upto(items, filtered, n)
        } else {
            0
        },
        forall|k: int|
            0 <= k < n ==> 0 <= row_of(items, filtered, k, show_headers) < rows_upto(
                items,
                filtered,
                selected,
                show_headers,
                now,
                n,
            ).len() && #[trigger] rows_upto(items, filtered, selected, show_headers, now, n)[row_of(
                items,
                filtered,
                k,
                show_headers,
            )] == item_row(items, filtered, selected, now, k),
    decreases n,
{
    lemma_headers_bound(items, filtered, n);
    if n > 0 {
        lemma_rows(items, filtered, selected, show_headers, now, n - 1);
        lemma_headers_bound(items, filtered, n - 1);
        let cur = rows_upto(items, filtered, selected, show_headers, now, n);
        let prev = rows_upto(items, filtered, selected, show_headers, now, n - 1);
        assert forall|k: int| 0 <= k < n implies 0 <= row_of(items, filtered, k, show_headers)
            < cur.len() && #[trigger] cur[row_of(items, filtered, k, show_headers)] == item_row(
            items,
            filtered,
            selected,
            now,
            k,
        ) by {
            lemma_headers_bound(items, filtered, k + 1);
            if k < n - 1 {
                assert(prev[row_of(items, filtered, k, show_headers)] == item_row(
                    items,
                    filtered,
                    selected,
                    now,
                    k,
                ));
                assert(cur[row_of(items, filtered, k, show_headers)] == prev[row_of(
                    items,
                    filtered,
                    k,
                    show_headers,
                )]);
            }
        }
    }
}

/// The rows of the list.
pub fn render_rows(items: &[PickerHost], filtered: &[usize], selected: usize, now: i64) -> (out:
    Vec<Row>)
    requires
        in_range(items@, filtered@),
    ensures
        row_views(out@) == list_rows(items@, filtered@, selected as int, now as int),
{
    let mut out: Vec<Row> = Vec::new();
    if filtered.len() == 0 {
        out.push(Row::Notice("  No matches".to_owned()));
        assert(row_views(out@) =~= seq![RowView::Notice("  No matches"@)]);
        return out;
    }
    let show_headers = any_tagged(items, filtered);
    let mut i: usize = 0;
    assert(row_views(out@) =~= Seq::<RowView>::empty());
    while i < filtered.len()
        invariant
            i <= filtered@.len(),
            in_range(items@, filtered@),
            row_views(out@) == rows_upto(
                items@,
                filtered@,
                selected as int,
                show_headers,
                now as int,
                i as int,
            ),
        decreases filtered@.len() - i,
    {
        let item = &items[filtered[i]];
        let ghost before = row_views(out@);
        let header = show_headers && (i == 0 || !same_group(
            &item.host,
            &items[filtered[i - 1]].host,
        ));
        if header {
            let mut label = "  ".to_owned();
            match first_tag(&item.host) {
                Some(g) => label.append(g.as_str()),
                None => label.append("other"),
            }
            out.push(Row::Header(label));
        }
        let ghost mid = row_views(out@);
        assert(mid =~= if header {
            before.push(RowView::Header(header_text(group_of(item@.host))))
        } else {
            before
        });
        let text = item_row_text(item, i == selected, now);
        out.push(Row::Item { index: filtered[i], selected: i == selected, text });
        assert(row_views(out@) =~= mid.push(
            item_row(items@, filtered@, selected as int, now as int, i as int),
        ));
        i += 1;
    }
    out
}

/// The bounds of the rows that a window of `height` rows shows when it is
/// scrolled to `offset`, among `total` rows.
pub fn window_bounds(total: usize, offset: usize, height: usize) -> (r: (usize, usize))
    ensures
        r.0 == if offset < total {
            offset
        } else {
            total
        },
        r.1 == if r.0 + height < total {
            (r.0 + height) as usize
        } else {
            total
        },
        r.0 <= r.1 <= total,
{
    let start: usize = if offset < total {
        offset
    } else {
        total
    };
    let end: usize = if height < total - start {
        start + height
    } else {
        total
    };
    (start, end)
}

/// The left part of the search line: the query behind its label, and a
/// block for the cursor.
pub open spec fn search_text(query: Seq<char>) -> Seq<char> {
    "  Search: "@.add(query).add("\u{2588}"@)
}

/// The right part of the search line: how many hosts match, of how many.
pub open spec fn count_text(matched: nat, total: nat) -> Seq<char> {
    decimal(matched).add(" / "@).add(decimal(total)).add(" hosts"@)
}

/// The two parts of the search line.
pub fn search_line(query: &str, matched: usize, total: usize) -> (r: (String, String))
    ensures
        r.0@ == search_text(query@),
        r.1@ == count_text(matched as nat, total as nat),
{
    let mut left = "  Search: ".to_owned();
    left.append(query);
    left.append("\u{2588}");
    let mut count = String::new();
    push_decimal(&mut count, matched as u64);
    count.append(" / ");
    push_decimal(&mut count, total as u64);
    count.append(" hosts");
    assert(count@ =~= count_text(matched as nat, total as nat));
    (left, count)
}

/// The number of columns left empty between the two parts of the search
/// line in a line of `width` columns, where the parts take `left` and
/// `count` columns: what remains of the width after both parts and two more
/// columns, and nothing where they are wider than the line.
pub fn search_padding(left: usize, count: usize, width: u16) -> (r: usize)
    ensures
        r == if left + count + 2 <= width {
            width - (left + count + 2)
        } else {
            0
        },
{
    let w: usize = width as usize;
    if left > w || count > w - left || w - left - count < 2 {
        0
    } else {
        w - left - count - 2
    }
}

} // verus!
