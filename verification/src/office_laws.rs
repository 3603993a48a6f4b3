//! The text of an office document is that of all its parts: of every paragraph, cell, row, sheet and
//! slide, in their order.
use vstd::prelude::*;
use vstd::string::*;

use crate::archive::{entry_names, Entry};
use crate::office_text::{
    by_number, capped, capped_event, docx_text, handed_out, is_cut, is_local, lemma_bytes_split, no_output,
    part_of, pptx_text, running_text, says_shared, shared_from, shared_strings, sheet_from, sheet_names,
    sheet_text, sheets_text, shown_cell, slide_number, slides_in, slides_text, tag_br, tag_c, tag_p,
    tag_row, tag_si, tag_t, tag_tab, tag_v, with_event, without_tab, xlsx_text, Cell, Output, SlideModel,
    MAX_EXTRACTED,
};
use crate::note_service::{fit, fit_from};
use crate::order::{rising_texts, sorted};
use crate::text::{byte_len, decimal, join, parse_unsigned, trim, utf8_len};
use crate::xml::{xml_events, AttributeModel, EventModel};

verus! {

/// Texts, one behind the other.
pub open spec fn run_together(parts: Seq<Seq<char>>) -> Seq<char>
    decreases parts.len(),
{
    if parts.len() == 0 {
        Seq::empty()
    } else {
        run_together(parts.drop_last()) + parts.last()
    }
}

/// Each of several texts stands in them all, one behind the other.
pub proof fn law_each_part_stands_in_the_whole(parts: Seq<Seq<char>>, k: int)
    requires
        0 <= k < parts.len(),
    ensures
        run_together(parts) == run_together(parts.take(k)) + parts[k] + run_together(
            parts.skip(k + 1),
        ),
    decreases parts.len(),
{
    let shorter = parts.drop_last();
    if k == parts.len() - 1 {
        assert(parts.take(k) =~= shorter);
        assert(parts.skip(k + 1) =~= Seq::empty());
        assert(run_together(parts.skip(k + 1)) =~= Seq::empty());
        assert(run_together(parts.take(k)) + parts[k] + run_together(parts.skip(k + 1))
            =~= run_together(parts.take(k)) + parts[k]);
    } else {
        law_each_part_stands_in_the_whole(shorter, k);
        assert(shorter.take(k) =~= parts.take(k));
        let rest = parts.skip(k + 1);
        assert(shorter.skip(k + 1) =~= rest.drop_last());
        assert(rest.last() == parts.last());
        assert(run_together(parts.take(k)) + parts[k] + run_together(rest.drop_last())
            + parts.last() =~= run_together(parts.take(k)) + parts[k] + (run_together(
            rest.drop_last(),
        ) + parts.last()));
    }
}

// ---------------------------------------------------------------------------------------------
// Below the limit nothing is left out
// ---------------------------------------------------------------------------------------------
/// A text with another before it.
pub open spec fn behind(pre: Output, out: Output) -> Output {
    Output { text: pre.text + out.text, dropped: pre.dropped }
}

/// Whether a text is below the limit.
pub open spec fn is_small(out: Output) -> bool {
    byte_len(out.text) < MAX_EXTRACTED
}

proof fn lemma_capped(pre: Output, out: Output, s: Seq<char>)
    requires
        is_small(capped(behind(pre, out), s)),
        !out.dropped,
    ensures
        capped(behind(pre, out), s) == behind(pre, capped(out, s)),
        !capped(out, s).dropped,
        capped(out, s).text == out.text + s,
        is_small(behind(pre, out)),
{
    lemma_bytes_split(pre.text, out.text);
    assert(pre.text + out.text + s =~= pre.text + (out.text + s));
}

proof fn lemma_without_tab(pre: Output, out: Output)
    requires
        pre.text.len() > 0 ==> pre.text.last() != '\t',
    ensures
        without_tab(behind(pre, out)) == behind(pre, without_tab(out)),
        without_tab(out).dropped == out.dropped,
{
    let all = pre.text + out.text;
    if out.text.len() > 0 {
        assert(all.last() == out.text.last());
        assert(all.drop_last() =~= pre.text + out.text.drop_last());
    } else {
        assert(all =~= pre.text);
    }
}

// ---------------------------------------------------------------------------------------------
// Paragraphs
// ---------------------------------------------------------------------------------------------
proof fn lemma_running_full(ev: Seq<EventModel>, breaks: bool, i: int, out: Output)
    requires
        !is_small(out),
    ensures
        !is_small(running_text(ev, breaks, i, out)),
    decreases ev.len() - i + 1,
{
    if 0 <= i < ev.len() {
        match ev[i] {
            EventModel::Bad(_) => {},
            EventModel::Start(n, _) => if is_local(n, tag_t()) {
                lemma_running_full(ev, breaks, i + 2, capped_event(out, ev, i + 1));
            } else {
                lemma_running_full(ev, breaks, i + 1, out);
            },
            EventModel::End(n) => {
                lemma_running_full(ev, breaks, i + 1, out);
                lemma_running_full(ev, breaks, i + 1, capped(out, "\n"@));
            },
            EventModel::Empty(n) => {
                lemma_running_full(ev, breaks, i + 1, out);
                lemma_running_full(ev, breaks, i + 1, capped(out, "\n"@));
                lemma_running_full(ev, breaks, i + 1, capped(out, "\t"@));
            },
            _ => {
                lemma_running_full(ev, breaks, i + 1, out);
            },
        }
    }
}

proof fn lemma_running_behind(ev: Seq<EventModel>, breaks: bool, i: int, pre: Output, out: Output)
    requires
        is_small(running_text(ev, breaks, i, behind(pre, out))),
        !out.dropped,
    ensures
        running_text(ev, breaks, i, behind(pre, out)) == behind(
            pre,
            running_text(ev, breaks, i, out),
        ),
        !running_text(ev, breaks, i, out).dropped,
    decreases ev.len() - i + 1,
{
    let all = behind(pre, out);
    if 0 <= i < ev.len() {
        match ev[i] {
            EventModel::Bad(_) => {},
            EventModel::Start(n, _) => if is_local(n, tag_t()) {
                let next = capped_event(all, ev, i + 1);
                if !is_small(next) {
                    lemma_running_full(ev, breaks, i + 2, next);
                }
                match crate::office_text::text_event(ev, i + 1) {
                    Some(s) => lemma_capped(pre, out, s),
                    None => {},
                }
                lemma_running_behind(ev, breaks, i + 2, pre, capped_event(out, ev, i + 1));
            } else {
                lemma_running_behind(ev, breaks, i + 1, pre, out);
            },
            EventModel::End(n) => if is_local(n, tag_p()) {
                let next = capped(all, "\n"@);
                if !is_small(next) {
                    lemma_running_full(ev, breaks, i + 1, next);
                }
                lemma_capped(pre, out, "\n"@);
                lemma_running_behind(ev, breaks, i + 1, pre, capped(out, "\n"@));
            } else {
                lemma_running_behind(ev, breaks, i + 1, pre, out);
            },
            EventModel::Empty(n) => if breaks && is_local(n, tag_br()) {
                let next = capped(all, "\n"@);
                if !is_small(next) {
                    lemma_running_full(ev, breaks, i + 1, next);
                }
                lemma_capped(pre, out, "\n"@);
                lemma_running_behind(ev, breaks, i + 1, pre, capped(out, "\n"@));
            } else if breaks && is_local(n, tag_tab()) {
                let next = capped(all, "\t"@);
                if !is_small(next) {
                    lemma_running_full(ev, breaks, i + 1, next);
                }
                lemma_capped(pre, out, "\t"@);
                lemma_running_behind(ev, breaks, i + 1, pre, capped(out, "\t"@));
            } else {
                lemma_running_behind(ev, breaks, i + 1, pre, out);
            },
            _ => {
                lemma_running_behind(ev, breaks, i + 1, pre, out);
            },
        }
    }
}

/// What was there before a document's text is kept, and the text of the document stands behind it, as
/// long as the whole is below the limit.
pub proof fn law_running_text_is_put_behind(ev: Seq<EventModel>, breaks: bool, out: Output)
    requires
        is_small(running_text(ev, breaks, 0, out)),
    ensures
        running_text(ev, breaks, 0, out).text == out.text + running_text(
            ev,
            breaks,
            0,
            no_output(),
        ).text,
        running_text(ev, breaks, 0, out).dropped == out.dropped,
{
    assert(behind(out, no_output()) == out) by {
        assert(out.text + Seq::<char>::empty() =~= out.text);
    }
    lemma_running_behind(ev, breaks, 0, out, no_output());
}

proof fn lemma_running_moves(
    pre: Seq<EventModel>,
    ev: Seq<EventModel>,
    breaks: bool,
    i: int,
    out: Output,
)
    requires
        0 <= i,
    ensures
        running_text(pre + ev, breaks, pre.len() + i, out) == running_text(ev, breaks, i, out),
    decreases ev.len() - i + 1,
{
    let all = pre + ev;
    if i < ev.len() {
        assert(all[pre.len() + i] == ev[i]);
        if i + 1 < ev.len() {
            assert(all[pre.len() + i + 1] == ev[i + 1]);
        }
        match ev[i] {
            EventModel::Bad(_) => {},
            EventModel::Start(n, _) => if is_local(n, tag_t()) {
                lemma_running_moves(pre, ev, breaks, i + 2, capped_event(out, ev, i + 1));
            } else {
                lemma_running_moves(pre, ev, breaks, i + 1, out);
            },
            EventModel::End(n) => {
                lemma_running_moves(pre, ev, breaks, i + 1, out);
                lemma_running_moves(pre, ev, breaks, i + 1, capped(out, "\n"@));
            },
            EventModel::Empty(n) => {
                lemma_running_moves(pre, ev, breaks, i + 1, out);
                lemma_running_moves(pre, ev, breaks, i + 1, capped(out, "\n"@));
                lemma_running_moves(pre, ev, breaks, i + 1, capped(out, "\t"@));
            },
            _ => {
                lemma_running_moves(pre, ev, breaks, i + 1, out);
            },
        }
    }
}

/// The events of an element that holds text.
pub open spec fn text_element(t: Seq<u8>, a: Seq<AttributeModel>, s: Seq<char>) -> Seq<EventModel> {
    seq![EventModel::Start(t, a), EventModel::Text(Some(s)), EventModel::End(t)]
}

/// A text element adds its text, the end of a paragraph a line break, and in a document a break adds a
/// line break and a tab a tab; other elements add nothing. Each is read and then what stands behind it.
pub proof fn law_document_is_read_piece_by_piece(
    n: Seq<u8>,
    a: Seq<AttributeModel>,
    s: Seq<char>,
    rest: Seq<EventModel>,
    breaks: bool,
    out: Output,
)
    requires
        is_small(out),
    ensures
        n == tag_t() || is_local(n, tag_t()) && !is_local(n, tag_p()) ==> running_text(
            text_element(n, a, s) + rest,
            breaks,
            0,
            out,
        ) == running_text(rest, breaks, 0, (Output { text: out.text + s, ..out })),
        is_local(n, tag_p()) ==> running_text(seq![EventModel::End(n)] + rest, breaks, 0, out)
            == running_text(rest, breaks, 0, (Output { text: out.text + "\n"@, ..out })),
        is_local(n, tag_br()) && breaks ==> running_text(
            seq![EventModel::Empty(n)] + rest,
            breaks,
            0,
            out,
        ) == running_text(rest, breaks, 0, (Output { text: out.text + "\n"@, ..out })),
        is_local(n, tag_tab()) && !is_local(n, tag_br()) && breaks ==> running_text(
            seq![EventModel::Empty(n)] + rest,
            breaks,
            0,
            out,
        ) == running_text(rest, breaks, 0, (Output { text: out.text + "\t"@, ..out })),
        !is_local(n, tag_t()) ==> running_text(
            seq![EventModel::Start(n, a)] + rest,
            breaks,
            0,
            out,
        ) == running_text(rest, breaks, 0, out),
        !is_local(n, tag_p()) ==> running_text(seq![EventModel::End(n)] + rest, breaks, 0, out)
            == running_text(rest, breaks, 0, out),
{
    let more = Output { text: out.text + s, ..out };
    let line = Output { text: out.text + "\n"@, ..out };
    let tab = Output { text: out.text + "\t"@, ..out };
    let el = text_element(n, a, s);
    let all = el + rest;
    assert(all[0] == el[0] && all[1] == el[1] && all[2] == el[2]);
    lemma_running_moves(el, rest, breaks, 0, more);
    if n == tag_t() {
        assert(tag_p()[0] == 112u8);
        assert(n[0] == 116u8);
        assert(!is_local(n, tag_p()));
    }
    if is_local(n, tag_t()) && !is_local(n, tag_p()) {
        assert(running_text(all, breaks, 0, out) == running_text(all, breaks, 2, more));
        assert(running_text(all, breaks, 2, more) == running_text(all, breaks, 3, more));
    }
    let end = seq![EventModel::End(n)];
    assert((end + rest)[0] == EventModel::End(n));
    lemma_running_moves(end, rest, breaks, 0, line);
    lemma_running_moves(end, rest, breaks, 0, out);
    let empty = seq![EventModel::Empty(n)];
    assert((empty + rest)[0] == EventModel::Empty(n));
    lemma_running_moves(empty, rest, breaks, 0, line);
    lemma_running_moves(empty, rest, breaks, 0, tab);
    let start = seq![EventModel::Start(n, a)];
    assert((start + rest)[0] == EventModel::Start(n, a));
    lemma_running_moves(start, rest, breaks, 0, out);
}

/// A tag has a local name whether it stands alone or behind a prefix and a colon, and no other.
pub proof fn law_prefixes_do_not_matter(prefix: Seq<u8>, local: Seq<u8>, other: Seq<u8>)
    requires
        forall|i: int| 0 <= i < other.len() ==> #[trigger] other[i] != 58u8,
        forall|i: int| 0 <= i < local.len() ==> #[trigger] local[i] != 58u8,
    ensures
        is_local(local, local),
        is_local(prefix + seq![58u8] + local, local),
        is_local(other, local) ==> other == local,
        is_local(prefix + seq![58u8] + other, local) ==> other == local,
{
    let raw = prefix + seq![58u8] + local;
    let k = raw.len() - local.len();
    assert(raw.subrange(k, raw.len() as int) =~= local);
    assert(raw[k - 1] == 58u8);
    if is_local(other, local) && other != local {
        let j = other.len() - local.len();
        assert(other[j - 1] == 58u8);
    }
    let named = prefix + seq![58u8] + other;
    if is_local(named, local) && other != local {
        let m = prefix.len() as int;
        assert(named[m] == 58u8);
        if named == local {
            assert(local[m] == 58u8);
        } else {
            let j = named.len() - local.len();
            assert(named[j - 1] == 58u8);
            if j - 1 > m {
                assert(named[j - 1] == other[j - 2 - m]);
            } else if j - 1 < m {
                assert(named.subrange(j, named.len() as int)[m - j] == named[m]);
                assert(local[m - j] == 58u8);
            } else {
                assert(named.subrange(j, named.len() as int) =~= other);
            }
        }
    }
}

// ---------------------------------------------------------------------------------------------
// Sheets
// ---------------------------------------------------------------------------------------------
proof fn lemma_row_full(out: Output)
    requires
        !is_small(out),
    ensures
        !is_small(capped(without_tab(out), "\n"@)),
{
    reveal_strlit("\n");
    let t = without_tab(out);
    if out.text.len() > 0 && out.text.last() == '\t' {
        assert(utf8_len('\t') == 1);
        let end = "\n"@;
        assert((t.text + end).drop_last() =~= t.text);
        assert((t.text + end).last() == '\n');
        assert(utf8_len('\n') == 1);
    }
}

proof fn lemma_shown_full(out: Output, shared: Seq<Seq<char>>, by_number: bool, cell: Seq<char>)
    requires
        !is_small(out),
    ensures
        !is_small(capped(shown_cell(out, shared, by_number, cell), "\t"@)),
{
}

proof fn lemma_sheet_full(
    ev: Seq<EventModel>,
    shared: Seq<Seq<char>>,
    i: int,
    cell: Cell,
    out: Output,
)
    requires
        !is_small(out),
    ensures
        !is_small(sheet_from(ev, shared, i, cell, out)),
    decreases ev.len() - i + 1,
{
    if 0 <= i < ev.len() {
        match ev[i] {
            EventModel::Bad(_) => {},
            EventModel::Start(n, a) => if is_local(n, tag_c()) {
                lemma_sheet_full(
                    ev,
                    shared,
                    i + 1,
                    Cell { inside: true, by_number: says_shared(a), text: Seq::empty() },
                    out,
                );
            } else if cell.inside && (is_local(n, tag_v()) || is_local(n, tag_t())) {
                lemma_sheet_full(
                    ev,
                    shared,
                    i + 2,
                    Cell { text: with_event(cell.text, ev, i + 1), ..cell },
                    out,
                );
            } else {
                lemma_sheet_full(ev, shared, i + 1, cell, out);
            },
            EventModel::End(n) => if is_local(n, tag_c()) {
                lemma_shown_full(out, shared, cell.by_number, cell.text);
                lemma_sheet_full(
                    ev,
                    shared,
                    i + 1,
                    Cell { inside: false, ..cell },
                    capped(shown_cell(out, shared, cell.by_number, cell.text), "\t"@),
                );
            } else if is_local(n, tag_row()) {
                lemma_row_full(out);
                lemma_sheet_full(ev, shared, i + 1, cell, capped(without_tab(out), "\n"@));
            } else {
                lemma_sheet_full(ev, shared, i + 1, cell, out);
            },
            _ => {
                lemma_sheet_full(ev, shared, i + 1, cell, out);
            },
        }
    }
}

proof fn lemma_shown(
    pre: Output,
    out: Output,
    shared: Seq<Seq<char>>,
    by_number: bool,
    cell: Seq<char>,
)
    requires
        is_small(shown_cell(behind(pre, out), shared, by_number, cell)),
        !out.dropped,
    ensures
        shown_cell(behind(pre, out), shared, by_number, cell) == behind(
            pre,
            shown_cell(out, shared, by_number, cell),
        ),
        !shown_cell(out, shared, by_number, cell).dropped,
{
    if by_number {
        match parse_unsigned(trim(cell), usize::MAX as int) {
            Some(k) => if k < shared.len() {
                lemma_capped(pre, out, shared[k]);
            },
            None => {},
        }
    } else {
        lemma_capped(pre, out, trim(cell));
    }
}

proof fn lemma_sheet_behind(
    ev: Seq<EventModel>,
    shared: Seq<Seq<char>>,
    i: int,
    cell: Cell,
    pre: Output,
    out: Output,
)
    requires
        is_small(sheet_from(ev, shared, i, cell, behind(pre, out))),
        !out.dropped,
        pre.text.len() > 0 ==> pre.text.last() != '\t',
    ensures
        sheet_from(ev, shared, i, cell, behind(pre, out)) == behind(
            pre,
            sheet_from(ev, shared, i, cell, out),
        ),
        !sheet_from(ev, shared, i, cell, out).dropped,
    decreases ev.len() - i + 1,
{
    let all = behind(pre, out);
    if 0 <= i < ev.len() {
        match ev[i] {
            EventModel::Bad(_) => {},
            EventModel::Start(n, a) => if is_local(n, tag_c()) {
                let next = Cell { inside: true, by_number: says_shared(a), text: Seq::empty() };
                lemma_sheet_behind(ev, shared, i + 1, next, pre, out);
            } else if cell.inside && (is_local(n, tag_v()) || is_local(n, tag_t())) {
                let next = Cell { text: with_event(cell.text, ev, i + 1), ..cell };
                lemma_sheet_behind(ev, shared, i + 2, next, pre, out);
            } else {
                lemma_sheet_behind(ev, shared, i + 1, cell, pre, out);
            },
            EventModel::End(n) => if is_local(n, tag_c()) {
                let next = Cell { inside: false, ..cell };
                let shown = shown_cell(all, shared, cell.by_number, cell.text);
                let ended = capped(shown, "\t"@);
                if !is_small(ended) {
                    lemma_sheet_full(ev, shared, i + 1, next, ended);
                }
                lemma_bytes_split(shown.text, "\t"@);
                assert(is_small(shown));
                lemma_shown(pre, out, shared, cell.by_number, cell.text);
                let alone = shown_cell(out, shared, cell.by_number, cell.text);
                lemma_capped(pre, alone, "\t"@);
                lemma_sheet_behind(ev, shared, i + 1, next, pre, capped(alone, "\t"@));
            } else if is_local(n, tag_row()) {
                let ended = capped(without_tab(all), "\n"@);
                if !is_small(ended) {
                    lemma_sheet_full(ev, shared, i + 1, cell, ended);
                }
                lemma_without_tab(pre, out);
                lemma_capped(pre, without_tab(out), "\n"@);
                lemma_sheet_behind(
                    ev,
                    shared,
                    i + 1,
                    cell,
                    pre,
                    capped(without_tab(out), "\n"@),
                );
            } else {
                lemma_sheet_behind(ev, shared, i + 1, cell, pre, out);
            },
            _ => {
                lemma_sheet_behind(ev, shared, i + 1, cell, pre, out);
            },
        }
    }
}

/// What was there before a sheet's text is kept, and the text of the sheet stands behind it, as long as
/// the whole is below the limit. This leaves out a text that ends in a tab, which the end of a row would
/// take for its own.
pub proof fn law_sheet_is_put_behind(ev: Seq<EventModel>, shared: Seq<Seq<char>>, out: Output)
    requires
        is_small(sheet_text(ev, shared, out)),
        out.text.len() > 0 ==> out.text.last() != '\t',
    ensures
        sheet_text(ev, shared, out).text == out.text + sheet_text(ev, shared, no_output()).text,
        sheet_text(ev, shared, out).dropped == out.dropped,
{
    assert(behind(out, no_output()) == out) by {
        assert(out.text + Seq::<char>::empty() =~= out.text);
    }
    let cell = Cell { inside: false, by_number: false, text: Seq::empty() };
    lemma_sheet_behind(ev, shared, 0, cell, out, no_output());
}

proof fn lemma_sheets_full(
    list: Seq<Entry>,
    shared: Seq<Seq<char>>,
    sheets: Seq<Seq<char>>,
    k: int,
    out: Output,
)
    requires
        !is_small(out),
        sheets_text(list, shared, sheets, k, out) is Ok,
    ensures
        !is_small(sheets_text(list, shared, sheets, k, out)->Ok_0),
    decreases sheets.len() - k,
{
    if 0 <= k < sheets.len() {
        let xml = part_of(list, sheets[k])->Ok_0;
        let cell = Cell { inside: false, by_number: false, text: Seq::empty() };
        lemma_sheet_full(xml_events(xml, false), shared, 0, cell, out);
        lemma_sheets_full(
            list,
            shared,
            sheets,
            k + 1,
            sheet_text(xml_events(xml, false), shared, out),
        );
    }
}

/// Whether texts are those of sheets, each read alone, with its rows closed.
pub open spec fn are_sheets(
    list: Seq<Entry>,
    shared: Seq<Seq<char>>,
    sheets: Seq<Seq<char>>,
    parts: Seq<Seq<char>>,
) -> bool {
    &&& parts.len() == sheets.len()
    &&& forall|k: int|
        0 <= k < sheets.len() ==> {
            &&& part_of(list, #[trigger] sheets[k]) is Ok
            &&& parts[k] == sheet_text(
                xml_events(part_of(list, sheets[k])->Ok_0, false),
                shared,
                no_output(),
            ).text
            &&& parts[k].len() > 0 ==> parts[k].last() != '\t'
        }
}

proof fn lemma_run_together_first(parts: Seq<Seq<char>>)
    requires
        parts.len() > 0,
    ensures
        run_together(parts) == parts[0] + run_together(parts.skip(1)),
{
    law_each_part_stands_in_the_whole(parts, 0);
    assert(parts.take(0) =~= Seq::empty());
    assert(run_together(parts.take(0)) =~= Seq::empty());
    assert(run_together(parts.take(0)) + parts[0] + run_together(parts.skip(1)) =~= parts[0]
        + run_together(parts.skip(1)));
}

proof fn lemma_sheets(
    list: Seq<Entry>,
    shared: Seq<Seq<char>>,
    sheets: Seq<Seq<char>>,
    parts: Seq<Seq<char>>,
    k: int,
    out: Output,
)
    requires
        are_sheets(list, shared, sheets, parts),
        0 <= k <= sheets.len(),
        out.text.len() > 0 ==> out.text.last() != '\t',
        sheets_text(list, shared, sheets, k, out) is Ok ==> is_small(
            sheets_text(list, shared, sheets, k, out)->Ok_0,
        ),
    ensures
        sheets_text(list, shared, sheets, k, out) is Ok,
        sheets_text(list, shared, sheets, k, out)->Ok_0.text == out.text + run_together(
            parts.skip(k),
        ),
        sheets_text(list, shared, sheets, k, out)->Ok_0.dropped == out.dropped,
    decreases sheets.len() - k,
{
    if k < sheets.len() {
        assert(part_of(list, sheets[k]) is Ok);
        let ev = xml_events(part_of(list, sheets[k])->Ok_0, false);
        let next = sheet_text(ev, shared, out);
        if !is_small(next) && sheets_text(list, shared, sheets, k + 1, next) is Ok {
            lemma_sheets_full(list, shared, sheets, k + 1, next);
        }
        if is_small(next) {
            law_sheet_is_put_behind(ev, shared, out);
            if parts[k].len() > 0 {
                assert(next.text.last() == parts[k].last());
            } else {
                assert(next.text =~= out.text);
            }
            lemma_sheets(list, shared, sheets, parts, k + 1, next);
        } else {
            lemma_all_read(list, shared, sheets, parts, k + 1, next);
        }
        lemma_run_together_first(parts.skip(k));
        assert(parts.skip(k)[0] == parts[k]);
        assert(parts.skip(k).skip(1) =~= parts.skip(k + 1));
        assert(out.text + parts[k] + run_together(parts.skip(k + 1)) =~= out.text + (parts[k]
            + run_together(parts.skip(k + 1))));
    } else {
        assert(parts.skip(k) =~= Seq::empty());
        assert(run_together(parts.skip(k)) =~= Seq::empty());
        assert(out.text + run_together(parts.skip(k)) =~= out.text);
    }
}

proof fn lemma_all_read(
    list: Seq<Entry>,
    shared: Seq<Seq<char>>,
    sheets: Seq<Seq<char>>,
    parts: Seq<Seq<char>>,
    k: int,
    out: Output,
)
    requires
        are_sheets(list, shared, sheets, parts),
        0 <= k,
    ensures
        sheets_text(list, shared, sheets, k, out) is Ok,
    decreases sheets.len() - k,
{
    if k < sheets.len() {
        assert(part_of(list, sheets[k]) is Ok);
        let ev = xml_events(part_of(list, sheets[k])->Ok_0, false);
        lemma_all_read(list, shared, sheets, parts, k + 1, sheet_text(ev, shared, out));
    }
}

/// The shared strings of a spreadsheet; none where there is no list of them.
pub open spec fn strings_of(list: Seq<Entry>) -> Seq<Seq<char>> {
    match part_of(list, "xl/sharedStrings.xml"@) {
        Ok(xml) => shared_strings(xml_events(xml, false)),
        Err(_) => Seq::empty(),
    }
}

/// The text of a spreadsheet below the limit is that of all its sheets, each as if it were alone, in
/// the order of their names, and nothing was left out of it. This leaves out sheets in which a row is
/// not closed.
pub proof fn law_spreadsheet_is_all_its_sheets(list: Seq<Entry>, parts: Seq<Seq<char>>)
    requires
        are_sheets(
            list,
            strings_of(list),
            sorted(sheet_names(entry_names(list)), rising_texts()),
            parts,
        ),
        xlsx_text(list) is Ok ==> is_small(xlsx_text(list)->Ok_0),
    ensures
        xlsx_text(list) is Ok,
        xlsx_text(list)->Ok_0.text == run_together(parts),
        !xlsx_text(list)->Ok_0.dropped,
        forall|k: int|
            0 <= k < parts.len() ==> xlsx_text(list)->Ok_0.text == run_together(parts.take(k))
                + #[trigger] parts[k] + run_together(parts.skip(k + 1)),
{
    let sheets = sorted(sheet_names(entry_names(list)), rising_texts());
    lemma_sheets(list, strings_of(list), sheets, parts, 0, no_output());
    assert(parts.skip(0) =~= parts);
    assert(Seq::<char>::empty() + run_together(parts) =~= run_together(parts));
    assert forall|k: int| 0 <= k < parts.len() implies xlsx_text(list)->Ok_0.text == run_together(
        parts.take(k),
    ) + #[trigger] parts[k] + run_together(parts.skip(k + 1)) by {
        law_each_part_stands_in_the_whole(parts, k);
    }
}

/// The sheets of a spreadsheet are all its entries in the folder of the sheets whose names end as XML
/// does, in their order.
pub proof fn law_every_sheet_is_found(names: Seq<Seq<char>>)
    ensures
        sheet_names(names) == names.filter(
            |n: Seq<char>|
                crate::text::starts_with(n, "xl/worksheets/"@) && crate::text::ends_with(
                    n,
                    ".xml"@,
                ),
        ),
    decreases names.len(),
{
    reveal(Seq::filter);
    if names.len() > 0 {
        law_every_sheet_is_found(names.drop_last());
    }
}

// ---------------------------------------------------------------------------------------------
// Cells and rows
// ---------------------------------------------------------------------------------------------
proof fn lemma_sheet_moves(
    pre: Seq<EventModel>,
    ev: Seq<EventModel>,
    shared: Seq<Seq<char>>,
    i: int,
    cell: Cell,
    out: Output,
)
    requires
        0 <= i,
    ensures
        sheet_from(pre + ev, shared, pre.len() + i, cell, out) == sheet_from(
            ev,
            shared,
            i,
            cell,
            out,
        ),
    decreases ev.len() - i + 1,
{
    let all = pre + ev;
    if i < ev.len() {
        assert(all[pre.len() + i] == ev[i]);
        if i + 1 < ev.len() {
            assert(all[pre.len() + i + 1] == ev[i + 1]);
        }
        match ev[i] {
            EventModel::Bad(_) => {},
            EventModel::Start(n, a) => if is_local(n, tag_c()) {
                let next = Cell { inside: true, by_number: says_shared(a), text: Seq::empty() };
                lemma_sheet_moves(pre, ev, shared, i + 1, next, out);
            } else if cell.inside && (is_local(n, tag_v()) || is_local(n, tag_t())) {
                let next = Cell { text: with_event(cell.text, ev, i + 1), ..cell };
                lemma_sheet_moves(pre, ev, shared, i + 2, next, out);
            } else {
                lemma_sheet_moves(pre, ev, shared, i + 1, cell, out);
            },
            EventModel::End(n) => if is_local(n, tag_c()) {
                let next = Cell { inside: false, ..cell };
                let shown = shown_cell(out, shared, cell.by_number, cell.text);
                lemma_sheet_moves(pre, ev, shared, i + 1, next, capped(shown, "\t"@));
            } else if is_local(n, tag_row()) {
                lemma_sheet_moves(
                    pre,
                    ev,
                    shared,
                    i + 1,
                    cell,
                    capped(without_tab(out), "\n"@),
                );
            } else {
                lemma_sheet_moves(pre, ev, shared, i + 1, cell, out);
            },
            _ => {
                lemma_sheet_moves(pre, ev, shared, i + 1, cell, out);
            },
        }
    }
}

/// A cell of a sheet: the attributes of its tag and what is written in it.
pub struct SheetCell {
    pub attributes: Seq<AttributeModel>,
    pub text: Seq<char>,
}

/// The names of the tags of a sheet, with whatever prefixes.
pub struct Tags {
    pub cell: Seq<u8>,
    pub value: Seq<u8>,
    pub row: Seq<u8>,
}

/// Whether names are those of the tags of a sheet.
pub open spec fn are_tags(t: Tags) -> bool {
    &&& is_local(t.cell, tag_c())
    &&& is_local(t.value, tag_v()) || is_local(t.value, tag_t())
    &&& !is_local(t.value, tag_c()) && !is_local(t.value, tag_row())
    &&& is_local(t.row, tag_row()) && !is_local(t.row, tag_c())
}

/// The events of a cell.
pub open spec fn cell_events(t: Tags, c: SheetCell) -> Seq<EventModel> {
    seq![
        EventModel::Start(t.cell, c.attributes),
        EventModel::Start(t.value, Seq::empty()),
        EventModel::Text(Some(c.text)),
        EventModel::End(t.value),
        EventModel::End(t.cell),
    ]
}

/// The events of cells.
pub open spec fn cells_events(t: Tags, cells: Seq<SheetCell>) -> Seq<EventModel>
    decreases cells.len(),
{
    if cells.len() == 0 {
        Seq::empty()
    } else {
        cell_events(t, cells[0]) + cells_events(t, cells.skip(1))
    }
}

/// Whether a text is what a cell shows: the shared string with its number, where its tag has the
/// attribute `t` with the value `s`, else what is written in it, trimmed.
pub open spec fn shows(c: SheetCell, shared: Seq<Seq<char>>, s: Seq<char>) -> bool {
    if exists|k: int|
        0 <= k < c.attributes.len() && (#[trigger] c.attributes[k]).key == seq![116u8]
            && c.attributes[k].value == seq![115u8] {
        exists|k: int|
            0 <= k < shared.len() && #[trigger] shared[k] == s && parse_unsigned(
                trim(c.text),
                usize::MAX as int,
            ) == Some(k)
    } else {
        s == trim(c.text)
    }
}

proof fn lemma_cell(
    t: Tags,
    c: SheetCell,
    rest: Seq<EventModel>,
    shared: Seq<Seq<char>>,
    cell: Cell,
    out: Output,
    s: Seq<char>,
)
    requires
        are_tags(t),
        shows(c, shared, s),
        byte_len(out.text + s) < MAX_EXTRACTED,
    ensures
        sheet_from(cell_events(t, c) + rest, shared, 0, cell, out) == sheet_from(
            rest,
            shared,
            0,
            (Cell { inside: false, by_number: says_shared(c.attributes), text: c.text }),
            (Output { text: out.text + s + "\t"@, ..out }),
        ),
{
    let ev = cell_events(t, c);
    let all = ev + rest;
    assert(all[0] == ev[0] && all[1] == ev[1] && all[2] == ev[2] && all[3] == ev[3] && all[4]
        == ev[4]);
    let by = says_shared(c.attributes);
    let none = Seq::<char>::empty();
    let opened = Cell { inside: true, by_number: by, text: none };
    let filled = Cell { inside: true, by_number: by, text: c.text };
    let closed = Cell { inside: false, by_number: by, text: c.text };
    let more = Output { text: out.text + s + "\t"@, ..out };
    lemma_bytes_split(out.text, s);
    assert(none + c.text =~= c.text);
    assert(with_event(none, all, 2) == c.text);
    assert(sheet_from(all, shared, 0, cell, out) == sheet_from(all, shared, 1, opened, out));
    assert(sheet_from(all, shared, 1, opened, out) == sheet_from(all, shared, 3, filled, out));
    assert(sheet_from(all, shared, 3, filled, out) == sheet_from(all, shared, 4, filled, out));
    assert(shown_cell(out, shared, by, c.text) == (Output { text: out.text + s, ..out }));
    assert(sheet_from(all, shared, 4, filled, out) == sheet_from(all, shared, 5, closed, more));
    lemma_sheet_moves(ev, rest, shared, 0, closed, more);
}

/// Texts with a tab behind each.
pub open spec fn tabbed(shown: Seq<Seq<char>>) -> Seq<char>
    decreases shown.len(),
{
    if shown.len() == 0 {
        Seq::empty()
    } else {
        shown[0] + "\t"@ + tabbed(shown.skip(1))
    }
}

proof fn lemma_cells(
    t: Tags,
    cells: Seq<SheetCell>,
    rest: Seq<EventModel>,
    shared: Seq<Seq<char>>,
    cell: Cell,
    out: Output,
    shown: Seq<Seq<char>>,
) -> (r: Cell)
    requires
        are_tags(t),
        shown.len() == cells.len(),
        forall|k: int| 0 <= k < cells.len() ==> shows(#[trigger] cells[k], shared, shown[k]),
        byte_len(out.text + tabbed(shown)) < MAX_EXTRACTED,
        !cell.inside,
    ensures
        !r.inside,
        sheet_from(cells_events(t, cells) + rest, shared, 0, cell, out) == sheet_from(
            rest,
            shared,
            0,
            r,
            (Output { text: out.text + tabbed(shown), ..out }),
        ),
    decreases cells.len(),
{
    if cells.len() == 0 {
        assert(cells_events(t, cells) + rest =~= rest);
        assert(out.text + tabbed(shown) =~= out.text);
        cell
    } else {
        let s = shown[0];
        assert(shows(cells[0], shared, shown[0]));
        let tail = shown.skip(1);
        assert forall|k: int| 0 <= k < cells.skip(1).len() implies shows(
            #[trigger] cells.skip(1)[k],
            shared,
            tail[k],
        ) by {
            assert(shows(cells[k + 1], shared, shown[k + 1]));
        }
        let more = cells_events(t, cells.skip(1)) + rest;
        assert(cells_events(t, cells) + rest =~= cell_events(t, cells[0]) + more);
        assert(out.text + tabbed(shown) =~= out.text + s + "\t"@ + tabbed(tail));
        lemma_bytes_split(out.text + s + "\t"@, tabbed(tail));
        lemma_bytes_split(out.text + s, "\t"@);
        lemma_cell(t, cells[0], more, shared, cell, out, s);
        let next = Cell {
            inside: false,
            by_number: says_shared(cells[0].attributes),
            text: cells[0].text,
        };
        lemma_cells(
            t,
            cells.skip(1),
            rest,
            shared,
            next,
            Output { text: out.text + s + "\t"@, ..out },
            tail,
        )
    }
}

proof fn lemma_tabbed(shown: Seq<Seq<char>>)
    requires
        shown.len() > 0,
    ensures
        tabbed(shown) == join(shown, "\t"@) + "\t"@,
    decreases shown.len(),
{
    if shown.len() > 1 {
        lemma_tabbed(shown.skip(1));
        crate::text_laws::lemma_join_first(shown, "\t"@);
        assert(shown[0] + "\t"@ + (join(shown.skip(1), "\t"@) + "\t"@) =~= shown[0] + "\t"@ + join(
            shown.skip(1),
            "\t"@,
        ) + "\t"@);
    } else {
        assert(tabbed(shown.skip(1)) =~= Seq::empty());
        assert(shown[0] + "\t"@ + Seq::<char>::empty() =~= shown[0] + "\t"@);
    }
}

/// The events of a row.
pub open spec fn row_events(t: Tags, cells: Seq<SheetCell>) -> Seq<EventModel> {
    seq![EventModel::Start(t.row, Seq::empty())] + cells_events(t, cells) + seq![
        EventModel::End(t.row),
    ]
}

proof fn lemma_row(
    t: Tags,
    cells: Seq<SheetCell>,
    rest: Seq<EventModel>,
    shared: Seq<Seq<char>>,
    cell: Cell,
    out: Output,
    shown: Seq<Seq<char>>,
) -> (r: Cell)
    requires
        are_tags(t),
        cells.len() > 0,
        shown.len() == cells.len(),
        forall|k: int| 0 <= k < cells.len() ==> shows(#[trigger] cells[k], shared, shown[k]),
        byte_len(out.text + join(shown, "\t"@) + "\n"@) < MAX_EXTRACTED,
        !cell.inside,
    ensures
        !r.inside,
        sheet_from(row_events(t, cells) + rest, shared, 0, cell, out) == sheet_from(
            rest,
            shared,
            0,
            r,
            (Output { text: out.text + join(shown, "\t"@) + "\n"@, ..out }),
        ),
{
    reveal_strlit("\t");
    reveal_strlit("\n");
    let start = seq![EventModel::Start(t.row, Seq::empty())];
    let end = seq![EventModel::End(t.row)];
    let all = row_events(t, cells) + rest;
    let inner = cells_events(t, cells) + (end + rest);
    assert(all =~= start + inner);
    assert(all[0] == start[0]);
    assert(sheet_from(all, shared, 0, cell, out) == sheet_from(all, shared, 1, cell, out));
    lemma_sheet_moves(start, inner, shared, 0, cell, out);
    lemma_tabbed(shown);
    let line = out.text + join(shown, "\t"@);
    lemma_bytes_split(line, "\t"@);
    lemma_bytes_split(line, "\n"@);
    assert("\t"@.drop_last() =~= Seq::empty());
    assert("\n"@.drop_last() =~= Seq::empty());
    assert(byte_len(Seq::<char>::empty()) == 0);
    assert("\t"@.last() == '\t' && "\n"@.last() == '\n');
    assert(utf8_len('\t') == 1 && utf8_len('\n') == 1);
    assert(byte_len("\t"@) == 1 && byte_len("\n"@) == 1);
    let full = Output { text: out.text + tabbed(shown), ..out };
    assert(full.text =~= line + "\t"@);
    let r = lemma_cells(t, cells, end + rest, shared, cell, out, shown);
    assert((end + rest)[0] == end[0]);
    assert(full.text.last() == '\t');
    assert(full.text.drop_last() =~= line);
    let done = Output { text: line + "\n"@, ..out };
    assert(sheet_from(end + rest, shared, 0, r, full) == sheet_from(
        end + rest,
        shared,
        1,
        r,
        done,
    ));
    lemma_sheet_moves(end, rest, shared, 0, r, done);
    r
}

/// The events of rows.
pub open spec fn rows_events(t: Tags, rows: Seq<Seq<SheetCell>>) -> Seq<EventModel>
    decreases rows.len(),
{
    if rows.len() == 0 {
        Seq::empty()
    } else {
        row_events(t, rows[0]) + rows_events(t, rows.skip(1))
    }
}

/// Rows of texts: in each the texts with tabs between, and a line break behind it.
pub open spec fn lines(rows: Seq<Seq<Seq<char>>>) -> Seq<char>
    decreases rows.len(),
{
    if rows.len() == 0 {
        Seq::empty()
    } else {
        join(rows[0], "\t"@) + "\n"@ + lines(rows.skip(1))
    }
}

/// Whether rows of cells show rows of texts.
pub open spec fn show(
    rows: Seq<Seq<SheetCell>>,
    shared: Seq<Seq<char>>,
    shown: Seq<Seq<Seq<char>>>,
) -> bool {
    rows.len() == shown.len() && forall|i: int|
        0 <= i < rows.len() ==> (#[trigger] rows[i]).len() > 0 && rows[i].len() == shown[i].len()
            && forall|k: int|
            0 <= k < rows[i].len() ==> shows(#[trigger] rows[i][k], shared, shown[i][k])
}

proof fn lemma_rows(
    t: Tags,
    rows: Seq<Seq<SheetCell>>,
    shared: Seq<Seq<char>>,
    cell: Cell,
    out: Output,
    shown: Seq<Seq<Seq<char>>>,
)
    requires
        are_tags(t),
        show(rows, shared, shown),
        byte_len(out.text + lines(shown)) < MAX_EXTRACTED,
        !cell.inside,
    ensures
        sheet_from(rows_events(t, rows), shared, 0, cell, out) == (Output {
            text: out.text + lines(shown),
            ..out
        }),
    decreases rows.len(),
{
    if rows.len() == 0 {
        assert(out.text + lines(shown) =~= out.text);
    } else {
        let rest = rows_events(t, rows.skip(1));
        assert(rows[0].len() > 0);
        let line = out.text + join(shown[0], "\t"@) + "\n"@;
        assert(out.text + lines(shown) =~= line + lines(shown.skip(1)));
        lemma_bytes_split(line, lines(shown.skip(1)));
        let next = lemma_row(t, rows[0], rest, shared, cell, out, shown[0]);
        assert(show(rows.skip(1), shared, shown.skip(1))) by {
            assert forall|i: int| 0 <= i < rows.skip(1).len() implies (#[trigger] rows.skip(
                1,
            )[i]).len() > 0 && rows.skip(1)[i].len() == shown.skip(1)[i].len() && forall|k: int|
                0 <= k < rows.skip(1)[i].len() ==> shows(
                    #[trigger] rows.skip(1)[i][k],
                    shared,
                    shown.skip(1)[i][k],
                ) by {
                assert(rows.skip(1)[i] == rows[i + 1]);
            }
        }
        lemma_rows(
            t,
            rows.skip(1),
            shared,
            next,
            Output { text: line, ..out },
            shown.skip(1),
        );
    }
}

/// The text of a sheet below the limit has a line for each row, with what its cells show, in their
/// order, with tabs between.
pub proof fn law_sheet_shows_every_cell(
    t: Tags,
    rows: Seq<Seq<SheetCell>>,
    shared: Seq<Seq<char>>,
    shown: Seq<Seq<Seq<char>>>,
)
    requires
        are_tags(t),
        show(rows, shared, shown),
        byte_len(lines(shown)) < MAX_EXTRACTED,
    ensures
        sheet_text(rows_events(t, rows), shared, no_output()).text == lines(shown),
        !sheet_text(rows_events(t, rows), shared, no_output()).dropped,
{
    let cell = Cell { inside: false, by_number: false, text: Seq::empty() };
    assert(Seq::<char>::empty() + lines(shown) =~= lines(shown));
    lemma_rows(t, rows, shared, cell, no_output(), shown);
}

// ---------------------------------------------------------------------------------------------
// Shared strings
// ---------------------------------------------------------------------------------------------
proof fn lemma_shared_moves(
    pre: Seq<EventModel>,
    ev: Seq<EventModel>,
    i: int,
    inside: bool,
    current: Seq<char>,
    list: Seq<Seq<char>>,
)
    requires
        0 <= i,
    ensures
        shared_from(pre + ev, pre.len() + i, inside, current, list) == shared_from(
            ev,
            i,
            inside,
            current,
            list,
        ),
    decreases ev.len() - i + 1,
{
    let all = pre + ev;
    if i < ev.len() {
        assert(all[pre.len() + i] == ev[i]);
        if i + 1 < ev.len() {
            assert(all[pre.len() + i + 1] == ev[i + 1]);
        }
        lemma_shared_moves(pre, ev, i + 1, true, Seq::empty(), list);
        lemma_shared_moves(pre, ev, i + 2, inside, with_event(current, ev, i + 1), list);
        lemma_shared_moves(pre, ev, i + 1, inside, current, list);
        lemma_shared_moves(pre, ev, i + 1, false, Seq::empty(), list.push(current));
    }
}

/// The events of text elements.
pub open spec fn runs_events(t: Seq<u8>, runs: Seq<Seq<char>>) -> Seq<EventModel>
    decreases runs.len(),
{
    if runs.len() == 0 {
        Seq::empty()
    } else {
        runs_events(t, runs.drop_last()) + text_element(t, Seq::empty(), runs.last())
    }
}

/// The events of shared strings, each in runs of text.
pub open spec fn strings_events(si: Seq<u8>, t: Seq<u8>, strings: Seq<Seq<Seq<char>>>) -> Seq<
    EventModel,
>
    decreases strings.len(),
{
    if strings.len() == 0 {
        Seq::empty()
    } else {
        seq![EventModel::Start(si, Seq::empty())] + runs_events(t, strings[0]) + seq![
            EventModel::End(si),
        ] + strings_events(si, t, strings.skip(1))
    }
}

proof fn lemma_runs(
    t: Seq<u8>,
    runs: Seq<Seq<char>>,
    rest: Seq<EventModel>,
    current: Seq<char>,
    list: Seq<Seq<char>>,
)
    requires
        is_local(t, tag_t()) && !is_local(t, tag_si()),
    ensures
        shared_from(runs_events(t, runs) + rest, 0, true, current, list) == shared_from(
            rest,
            0,
            true,
            current + run_together(runs),
            list,
        ),
    decreases runs.len(),
{
    if runs.len() == 0 {
        assert(runs_events(t, runs) + rest =~= rest);
        assert(current + run_together(runs) =~= current);
    } else {
        let s = runs.last();
        let el = text_element(t, Seq::empty(), s);
        let shorter = runs.drop_last();
        assert(runs_events(t, runs) + rest =~= runs_events(t, shorter) + (el + rest));
        lemma_runs(t, shorter, el + rest, current, list);
        let before = current + run_together(shorter);
        let all = el + rest;
        assert(all[0] == el[0] && all[1] == el[1] && all[2] == el[2]);
        assert(with_event(before, all, 1) == before + s);
        assert(shared_from(all, 0, true, before, list) == shared_from(
            all,
            2,
            true,
            before + s,
            list,
        ));
        assert(shared_from(all, 2, true, before + s, list) == shared_from(
            all,
            3,
            true,
            before + s,
            list,
        ));
        lemma_shared_moves(el, rest, 0, true, before + s, list);
        assert(before + s =~= current + run_together(runs));
    }
}

proof fn lemma_strings(
    si: Seq<u8>,
    t: Seq<u8>,
    strings: Seq<Seq<Seq<char>>>,
    list: Seq<Seq<char>>,
)
    requires
        is_local(si, tag_si()),
        is_local(t, tag_t()) && !is_local(t, tag_si()),
    ensures
        shared_from(strings_events(si, t, strings), 0, false, Seq::empty(), list) == list
            + strings.map_values(|runs: Seq<Seq<char>>| run_together(runs)),
    decreases strings.len(),
{
    let f = |runs: Seq<Seq<char>>| run_together(runs);
    let none = Seq::<char>::empty();
    if strings.len() == 0 {
        assert(list + strings.map_values(f) =~= list);
    } else {
        let start = seq![EventModel::Start(si, Seq::empty())];
        let end = seq![EventModel::End(si)];
        let tail = strings_events(si, t, strings.skip(1));
        let inner = runs_events(t, strings[0]) + (end + tail);
        let all = strings_events(si, t, strings);
        assert(all =~= start + inner);
        assert(all[0] == start[0]);
        assert(shared_from(all, 0, false, none, list) == shared_from(all, 1, true, none, list));
        lemma_shared_moves(start, inner, 0, true, none, list);
        lemma_runs(t, strings[0], end + tail, none, list);
        let s = run_together(strings[0]);
        assert(none + s =~= s);
        assert((end + tail)[0] == end[0]);
        assert(shared_from(end + tail, 0, true, s, list) == shared_from(
            end + tail,
            1,
            false,
            none,
            list.push(s),
        ));
        lemma_shared_moves(end, tail, 0, false, none, list.push(s));
        lemma_strings(si, t, strings.skip(1), list.push(s));
        assert(list.push(s) + strings.skip(1).map_values(f) =~= list + strings.map_values(f));
    }
}

/// The shared strings are all those of the list, in their order, each with all its runs of text.
pub proof fn law_every_shared_string_is_read(
    si: Seq<u8>,
    t: Seq<u8>,
    strings: Seq<Seq<Seq<char>>>,
)
    requires
        is_local(si, tag_si()),
        is_local(t, tag_t()) && !is_local(t, tag_si()),
    ensures
        shared_strings(strings_events(si, t, strings)).len() == strings.len(),
        forall|k: int|
            0 <= k < strings.len() ==> #[trigger] shared_strings(strings_events(si, t, strings))[k]
                == run_together(strings[k]),
{
    lemma_strings(si, t, strings, Seq::empty());
    let f = |runs: Seq<Seq<char>>| run_together(runs);
    assert(Seq::<Seq<char>>::empty() + strings.map_values(f) =~= strings.map_values(f));
}

// ---------------------------------------------------------------------------------------------
// Slides
// ---------------------------------------------------------------------------------------------
proof fn lemma_slides_full(list: Seq<Entry>, slides: Seq<SlideModel>, k: int, out: Output)
    requires
        !is_small(out),
        slides_text(list, slides, k, out) is Ok,
    ensures
        !is_small(slides_text(list, slides, k, out)->Ok_0),
    decreases slides.len() - k,
{
    if 0 <= k < slides.len() {
        let ev = xml_events(part_of(list, slides[k].name)->Ok_0, false);
        let head = capped(out, "—— 第 "@ + decimal(slides[k].num as nat) + " 页 ——\n"@);
        lemma_running_full(ev, false, 0, head);
        let body = running_text(ev, false, 0, head);
        lemma_slides_full(list, slides, k + 1, capped(body, "\n"@));
    }
}

/// The text of a slide alone: a line with its number, what it says, and an empty line.
pub open spec fn slide_alone(list: Seq<Entry>, slide: SlideModel) -> Seq<char> {
    "—— 第 "@ + decimal(slide.num as nat) + " 页 ——\n"@ + running_text(
        xml_events(part_of(list, slide.name)->Ok_0, false),
        false,
        0,
        no_output(),
    ).text + "\n"@
}

/// Whether texts are those of slides, each read alone.
pub open spec fn are_slides(
    list: Seq<Entry>,
    slides: Seq<SlideModel>,
    parts: Seq<Seq<char>>,
) -> bool {
    &&& parts.len() == slides.len()
    &&& forall|k: int|
        0 <= k < slides.len() ==> part_of(list, (#[trigger] slides[k]).name) is Ok && parts[k]
            == slide_alone(list, slides[k])
}

proof fn lemma_slides(
    list: Seq<Entry>,
    slides: Seq<SlideModel>,
    parts: Seq<Seq<char>>,
    k: int,
    out: Output,
)
    requires
        are_slides(list, slides, parts),
        0 <= k <= slides.len(),
        slides_text(list, slides, k, out) is Ok,
        is_small(slides_text(list, slides, k, out)->Ok_0),
    ensures
        slides_text(list, slides, k, out)->Ok_0.text == out.text + run_together(parts.skip(k)),
        slides_text(list, slides, k, out)->Ok_0.dropped == out.dropped,
    decreases slides.len() - k,
{
    if k < slides.len() {
        let title = "—— 第 "@ + decimal(slides[k].num as nat) + " 页 ——\n"@;
        let ev = xml_events(part_of(list, slides[k].name)->Ok_0, false);
        let head = capped(out, title);
        let body = running_text(ev, false, 0, head);
        let next = capped(body, "\n"@);
        if !is_small(next) {
            lemma_slides_full(list, slides, k + 1, next);
        }
        lemma_bytes_split(body.text, "\n"@);
        assert(is_small(body));
        if !is_small(head) {
            lemma_running_full(ev, false, 0, head);
        }
        lemma_bytes_split(out.text, title);
        assert(head == (Output { text: out.text + title, ..out }));
        law_running_text_is_put_behind(ev, false, head);
        let alone = running_text(ev, false, 0, no_output()).text;
        assert(part_of(list, slides[k].name) is Ok);
        assert(next.text =~= out.text + parts[k]);
        lemma_slides(list, slides, parts, k + 1, next);
        lemma_run_together_first(parts.skip(k));
        assert(parts.skip(k)[0] == parts[k]);
        assert(parts.skip(k).skip(1) =~= parts.skip(k + 1));
        assert(out.text + parts[k] + run_together(parts.skip(k + 1)) =~= out.text + (parts[k]
            + run_together(parts.skip(k + 1))));
    } else {
        assert(parts.skip(k) =~= Seq::empty());
        assert(run_together(parts.skip(k)) =~= Seq::empty());
        assert(out.text + run_together(parts.skip(k)) =~= out.text);
    }
}

proof fn lemma_all_slides_read(
    list: Seq<Entry>,
    slides: Seq<SlideModel>,
    parts: Seq<Seq<char>>,
    k: int,
    out: Output,
)
    requires
        are_slides(list, slides, parts),
        0 <= k,
    ensures
        slides_text(list, slides, k, out) is Ok,
    decreases slides.len() - k,
{
    if k < slides.len() {
        assert(part_of(list, slides[k].name) is Ok);
        let ev = xml_events(part_of(list, slides[k].name)->Ok_0, false);
        let head = capped(out, "—— 第 "@ + decimal(slides[k].num as nat) + " 页 ——\n"@);
        let body = running_text(ev, false, 0, head);
        lemma_all_slides_read(list, slides, parts, k + 1, capped(body, "\n"@));
    }
}

/// The text of a presentation below the limit is that of all its slides, each as if it were alone, in
/// the order of their numbers, and nothing was left out of it.
pub proof fn law_presentation_is_all_its_slides(list: Seq<Entry>, parts: Seq<Seq<char>>)
    requires
        are_slides(list, sorted(slides_in(entry_names(list)), by_number()), parts),
        pptx_text(list) is Ok ==> is_small(pptx_text(list)->Ok_0),
    ensures
        pptx_text(list) is Ok,
        pptx_text(list)->Ok_0.text == run_together(parts),
        !pptx_text(list)->Ok_0.dropped,
{
    let slides = sorted(slides_in(entry_names(list)), by_number());
    lemma_all_slides_read(list, slides, parts, 0, no_output());
    lemma_slides(list, slides, parts, 0, no_output());
    assert(parts.skip(0) =~= parts);
    assert(Seq::<char>::empty() + run_together(parts) =~= run_together(parts));
}

/// The slides among two lists of names are those of the first and those of the second, and an entry in
/// the folder of the slides with a number is one.
pub proof fn law_every_slide_is_found(
    a: Seq<Seq<char>>,
    b: Seq<Seq<char>>,
    digits: Seq<char>,
    n: u32,
)
    requires
        parse_unsigned(digits, u32::MAX as int) == Some(n as int),
    ensures
        slides_in(a + b) == slides_in(a) + slides_in(b),
        ({
            let name = "ppt/slides/slide"@ + digits + ".xml"@;
            slides_in(seq![name]) == seq![SlideModel { num: n, name }]
        }),
    decreases b.len(),
{
    let head = "ppt/slides/slide"@;
    let tail = ".xml"@;
    let name = head + digits + tail;
    assert(name.subrange(0, head.len() as int) =~= head);
    assert(name.subrange(head.len() as int, name.len() as int) =~= digits + tail);
    assert(name.skip(head.len() as int) =~= digits + tail);
    let rest = digits + tail;
    assert(rest.subrange(rest.len() - tail.len(), rest.len() as int) =~= tail);
    assert(rest.subrange(0, rest.len() - tail.len()) =~= digits);
    assert(rest.take(rest.len() - tail.len()) =~= digits);
    assert(slide_number(name) == Some(n as int));
    let none = Seq::<Seq<char>>::empty();
    assert(slides_in(none) =~= Seq::empty());
    assert(seq![name].drop_last() =~= none);
    assert(seq![name].last() == name);
    assert(slides_in(seq![name]) =~= seq![SlideModel { num: n, name }]);
    if b.len() == 0 {
        assert(a + b =~= a);
        assert(slides_in(a) + slides_in(b) =~= slides_in(a));
    } else {
        law_every_slide_is_found(a, b.drop_last(), digits, n);
        assert((a + b).drop_last() =~= a + b.drop_last());
        assert((a + b).last() == b.last());
    }
}

// ---------------------------------------------------------------------------------------------
// Documents
// ---------------------------------------------------------------------------------------------
/// The events of paragraphs, each of runs of text.
pub open spec fn paragraphs_events(p: Seq<u8>, t: Seq<u8>, list: Seq<Seq<Seq<char>>>) -> Seq<
    EventModel,
>
    decreases list.len(),
{
    if list.len() == 0 {
        Seq::empty()
    } else {
        seq![EventModel::Start(p, Seq::empty())] + runs_events(t, list[0]) + seq![
            EventModel::End(p),
        ] + paragraphs_events(p, t, list.skip(1))
    }
}

/// Paragraphs: the runs of each one behind the other, with a line break behind them.
pub open spec fn paragraphs(list: Seq<Seq<Seq<char>>>) -> Seq<char>
    decreases list.len(),
{
    if list.len() == 0 {
        Seq::empty()
    } else {
        run_together(list[0]) + "\n"@ + paragraphs(list.skip(1))
    }
}

proof fn lemma_running_runs(
    t: Seq<u8>,
    runs: Seq<Seq<char>>,
    rest: Seq<EventModel>,
    breaks: bool,
    out: Output,
)
    requires
        is_local(t, tag_t()) && !is_local(t, tag_p()),
        byte_len(out.text + run_together(runs)) < MAX_EXTRACTED,
    ensures
        running_text(runs_events(t, runs) + rest, breaks, 0, out) == running_text(
            rest,
            breaks,
            0,
            (Output { text: out.text + run_together(runs), ..out }),
        ),
    decreases runs.len(),
{
    if runs.len() == 0 {
        assert(runs_events(t, runs) + rest =~= rest);
        assert(out.text + run_together(runs) =~= out.text);
    } else {
        let s = runs.last();
        let el = text_element(t, Seq::empty(), s);
        let shorter = runs.drop_last();
        let before = Output { text: out.text + run_together(shorter), ..out };
        assert(before.text + s =~= out.text + run_together(runs));
        lemma_bytes_split(before.text, s);
        assert(runs_events(t, runs) + rest =~= runs_events(t, shorter) + (el + rest));
        lemma_running_runs(t, shorter, el + rest, breaks, out);
        law_document_is_read_piece_by_piece(t, Seq::empty(), s, rest, breaks, before);
    }
}

proof fn lemma_paragraphs(
    p: Seq<u8>,
    t: Seq<u8>,
    list: Seq<Seq<Seq<char>>>,
    breaks: bool,
    out: Output,
)
    requires
        is_local(p, tag_p()) && !is_local(p, tag_t()),
        is_local(t, tag_t()) && !is_local(t, tag_p()),
        byte_len(out.text + paragraphs(list)) < MAX_EXTRACTED,
    ensures
        running_text(paragraphs_events(p, t, list), breaks, 0, out) == (Output {
            text: out.text + paragraphs(list),
            ..out
        }),
    decreases list.len(),
{
    if list.len() == 0 {
        assert(out.text + paragraphs(list) =~= out.text);
    } else {
        let tail = paragraphs_events(p, t, list.skip(1));
        let start = seq![EventModel::Start(p, Seq::empty())];
        let end = seq![EventModel::End(p)];
        let inner = runs_events(t, list[0]) + (end + tail);
        assert(paragraphs_events(p, t, list) =~= start + inner);
        let line = out.text + run_together(list[0]);
        let done = line + "\n"@;
        assert(out.text + paragraphs(list) =~= done + paragraphs(list.skip(1)));
        lemma_bytes_split(done, paragraphs(list.skip(1)));
        lemma_bytes_split(line, "\n"@);
        lemma_bytes_split(out.text, run_together(list[0]));
        law_document_is_read_piece_by_piece(p, Seq::empty(), Seq::empty(), inner, breaks, out);
        lemma_running_runs(t, list[0], end + tail, breaks, out);
        let full = Output { text: line, ..out };
        law_document_is_read_piece_by_piece(p, Seq::empty(), Seq::empty(), tail, breaks, full);
        lemma_paragraphs(p, t, list.skip(1), breaks, Output { text: done, ..out });
    }
}

/// The text of a document below the limit has a line for each paragraph of its main part, with all its
/// runs of text.
pub proof fn law_document_has_every_paragraph(
    entries: Seq<Entry>,
    xml: Seq<u8>,
    p: Seq<u8>,
    t: Seq<u8>,
    list: Seq<Seq<Seq<char>>>,
)
    requires
        part_of(entries, "word/document.xml"@) == Ok::<Seq<u8>, Seq<char>>(xml),
        xml_events(xml, false) == paragraphs_events(p, t, list),
        is_local(p, tag_p()) && !is_local(p, tag_t()),
        is_local(t, tag_t()) && !is_local(t, tag_p()),
        byte_len(paragraphs(list)) < MAX_EXTRACTED,
    ensures
        docx_text(entries) is Ok,
        docx_text(entries)->Ok_0.text == paragraphs(list),
        !docx_text(entries)->Ok_0.dropped,
{
    assert(Seq::<char>::empty() + paragraphs(list) =~= paragraphs(list));
    lemma_paragraphs(p, t, list, true, no_output());
}

proof fn lemma_fit_from(s: Seq<char>, n: int, i: int)
    requires
        0 <= n,
        0 <= i <= s.len(),
    ensures
        ({
            let k = fit_from(s, n, i);
            &&& i <= k <= s.len()
            &&& byte_len(s.take(k)) <= byte_len(s.take(i)) + n
            &&& k < s.len() ==> byte_len(s.take(k + 1)) > byte_len(s.take(i)) + n
        }),
    decreases s.len() - i,
{
    if i < s.len() {
        assert(s.take(i + 1).drop_last() =~= s.take(i));
        assert(s.take(i + 1).last() == s[i]);
        if utf8_len(s[i]) <= n {
            lemma_fit_from(s, n - utf8_len(s[i]), i + 1);
        }
    }
}

/// As much of a text as fits into a number of bytes: its beginning takes no more of them, and with one
/// character more it would.
pub proof fn law_as_much_as_fits(s: Seq<char>, n: int)
    requires
        0 <= n,
    ensures
        0 <= fit(s, n) <= s.len(),
        byte_len(s.take(fit(s, n))) <= n,
        fit(s, n) < s.len() ==> byte_len(s.take(fit(s, n) + 1)) > n,
{
    lemma_fit_from(s, n, 0);
    assert(s.take(0) =~= Seq::empty());
    assert(byte_len(s.take(0)) == 0);
}

/// A text within the limit is handed out whole, unless something was left out of it, and one beyond it
/// is cut to its beginning.
pub proof fn law_small_text_is_handed_out_whole(t: Output)
    ensures
        byte_len(t.text) <= MAX_EXTRACTED ==> handed_out(t) == t.text,
        is_cut(t) <==> (t.dropped || handed_out(t) != t.text),
{
    if byte_len(t.text) > MAX_EXTRACTED {
        law_as_much_as_fits(t.text, MAX_EXTRACTED as int);
        assert(t.text.take(t.text.len() as int) =~= t.text);
    }
}

} // verus!
