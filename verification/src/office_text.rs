//! The text of office documents: Word files, spreadsheets and slides, which are zip archives of XML.
//! Layout, images and styles are dropped.
use vstd::prelude::*;
use vstd::string::*;

use crate::archive::{
    entry_names, open_zip, read_named, read_of, zip_entries, zip_names, zip_read, Entry,
    ReadFailure,
};
use crate::note_service::{fit, fit_of};
use crate::order::{in_order, law_sorted, rising_texts, sort_texts, sorted};
use crate::text::{
    byte_len, chars_of, concat2, concat3, decimal, decimal_of, ends_with, has_prefix, has_suffix,
    lemma_texts_push, lower, parse_u64_within, parse_unsigned, slice,
    starts_with, string_of, strip_prefix, strip_suffix, texts, to_lower, trim, trimmed, utf8_len,
    utf8_width, without_prefix, without_suffix,
};
use crate::xml::{
    event_models, read_events, same_bytes, xml_events, Attribute, AttributeModel, EventModel,
    XmlEvent,
};

verus! {

/// How many bytes of text are taken out of a document.
pub const MAX_EXTRACTED: u64 = 2_097_152;

/// How many bytes a document may have.
pub const MAX_SOURCE: u64 = 268_435_456;

/// Whether a file's name is that of an office document.
pub open spec fn office_name(name: Seq<char>) -> bool {
    ends_with(lower(name), ".docx"@) || ends_with(lower(name), ".xlsx"@) || ends_with(
        lower(name),
        ".pptx"@,
    )
}

/// Tells whether a file's name is that of an office document.
pub fn is_office_name(name: &str) -> (r: bool)
    ensures
        r == office_name(name@),
{
    let low = to_lower(name);
    has_suffix(low.as_str(), ".docx") || has_suffix(low.as_str(), ".xlsx") || has_suffix(
        low.as_str(),
        ".pptx",
    )
}

// ---------------------------------------------------------------------------------------------
// Names of elements
// ---------------------------------------------------------------------------------------------
/// Whether a tag has a local name, whatever prefix stands before it.
pub open spec fn is_local(raw: Seq<u8>, local: Seq<u8>) -> bool {
    let k = raw.len() - local.len();
    raw == local || (k > 0 && raw.subrange(k, raw.len() as int) == local && raw[k - 1] == 58u8)
}

fn local_is(raw: &Vec<u8>, local: &[u8]) -> (r: bool)
    ensures
        r == is_local(raw@, local@),
{
    if raw.len() < local.len() {
        return false;
    }
    let k: usize = raw.len() - local.len();
    let mut i: usize = 0;
    while i < local.len()
        invariant
            i <= local.len(),
            k == raw.len() - local.len(),
            forall|j: int| 0 <= j < i ==> raw@[k + j] == local@[j],
        decreases local.len() - i,
    {
        if raw[k + i] != local[i] {
            proof {
                if raw@ == local@ {
                    assert(raw@[i as int] == local@[i as int]);
                }
                assert(raw@.subrange(k as int, raw.len() as int)[i as int] == raw@[k + i]);
            }
            return false;
        }
        i += 1;
    }
    proof {
        assert(raw@.subrange(k as int, raw.len() as int) =~= local@);
        if k == 0 {
            assert(raw@ =~= local@);
        }
    }
    k == 0 || raw[k - 1] == 58
}

// ---------------------------------------------------------------------------------------------
// The text so far
// ---------------------------------------------------------------------------------------------
/// A text that is put together, and whether something was left out because the text was long enough.
#[verifier::ext_equal]
pub struct Output {
    pub text: Seq<char>,
    pub dropped: bool,
}

/// The text before anything is put to it.
pub open spec fn no_output() -> Output {
    Output { text: Seq::empty(), dropped: false }
}

/// A text with another behind it, which is left out where the text is long enough.
pub open spec fn capped(out: Output, s: Seq<char>) -> Output {
    if byte_len(out.text) < MAX_EXTRACTED {
        Output { text: out.text + s, ..out }
    } else {
        Output { dropped: out.dropped || s.len() > 0, ..out }
    }
}

/// A text that grows, how many bytes it takes, and whether something was left out.
pub struct Growing {
    pub text: Vec<char>,
    pub bytes: u128,
    pub dropped: bool,
}

impl View for Growing {
    type V = Output;

    open spec fn view(&self) -> Output {
        Output { text: self.text@, dropped: self.dropped }
    }
}

/// The bytes of a text are those of its parts, and at most four for each character.
pub proof fn lemma_bytes_split(s: Seq<char>, t: Seq<char>)
    ensures
        byte_len(s + t) == byte_len(s) + byte_len(t),
        byte_len(s) <= 4 * s.len(),
    decreases s.len() + t.len(),
{
    if t.len() > 0 {
        lemma_bytes_split(s, t.drop_last());
        assert((s + t).drop_last() =~= s + t.drop_last());
    } else {
        assert(s + t =~= s);
        if s.len() > 0 {
            lemma_bytes_split(s.drop_last(), t);
        }
    }
}

impl Growing {
    /// Whether the bytes are counted right.
    pub open spec fn wf(self) -> bool {
        self.bytes == byte_len(self.text@)
    }

    /// An empty text.
    pub fn new() -> (r: Growing)
        ensures
            r.wf(),
            r@ == no_output(),
    {
        Growing { text: Vec::new(), bytes: 0, dropped: false }
    }

    /// Puts a text behind, or leaves it out where what is there is long enough.
    pub fn push_capped(&mut self, s: &str)
        requires
            old(self).wf(),
        ensures
            final(self).wf(),
            final(self)@ == capped(old(self)@, s@),
    {
        let a = chars_of(s);
        if self.bytes >= MAX_EXTRACTED as u128 {
            if a.len() > 0 {
                self.dropped = true;
            }
            return;
        }
        let ghost before = self.text@;
        let mut i: usize = 0;
        assert(before + s@.take(0) =~= before);
        while i < a.len()
            invariant
                i <= a.len(),
                a@ == s@,
                self.text@ == before + s@.take(i as int),
                self.dropped == old(self).dropped,
                self.wf(),
                self.bytes <= MAX_EXTRACTED + 4 * i,
            decreases a.len() - i,
        {
            proof {
                assert(self.text@.push(a@[i as int]).drop_last() =~= self.text@);
                assert(self.text@.push(a@[i as int]) =~= before + s@.take(i + 1));
            }
            self.bytes = self.bytes + utf8_width(a[i]) as u128;
            self.text.push(a[i]);
            i += 1;
        }
        assert(s@.take(s@.len() as int) =~= s@);
    }

    /// Takes a tab off the end, if there is one.
    pub fn drop_tab(&mut self)
        requires
            old(self).wf(),
        ensures
            final(self).wf(),
            final(self)@ == without_tab(old(self)@),
    {
        let n = self.text.len();
        if n > 0 && self.text[n - 1] == '\t' {
            proof {
                assert(self.text@.last() == '\t');
                assert(utf8_len('\t') == 1);
            }
            self.text.pop();
            self.bytes = self.bytes - 1;
            assert(self.text@ =~= old(self).text@.drop_last());
        }
    }
}

/// A text without a tab at its end.
pub open spec fn without_tab(out: Output) -> Output {
    if out.text.len() > 0 && out.text.last() == '\t' {
        Output { text: out.text.drop_last(), ..out }
    } else {
        out
    }
}

// ---------------------------------------------------------------------------------------------
// Paragraphs
// ---------------------------------------------------------------------------------------------
/// The text that stands at a place of a row of events, if one does.
pub open spec fn text_event(ev: Seq<EventModel>, i: int) -> Option<Seq<char>> {
    if 0 <= i < ev.len() {
        match ev[i] {
            EventModel::Text(t) => t,
            _ => None,
        }
    } else {
        None
    }
}

/// A text with what a place of a row of events says, where it says something.
pub open spec fn capped_event(out: Output, ev: Seq<EventModel>, i: int) -> Output {
    match text_event(ev, i) {
        Some(s) => capped(out, s),
        None => out,
    }
}

/// The local name of the elements that hold text.
pub open spec fn tag_t() -> Seq<u8> {
    seq![116u8]
}

/// The local name of paragraphs.
pub open spec fn tag_p() -> Seq<u8> {
    seq![112u8]
}

/// The local name of line breaks.
pub open spec fn tag_br() -> Seq<u8> {
    seq![98u8, 114u8]
}

/// The local name of tabs.
pub open spec fn tag_tab() -> Seq<u8> {
    seq![116u8, 97u8, 98u8]
}

/// The text of a document's events from the `i`-th on, behind `out`: what follows the start of each
/// text element, with a line break behind each paragraph. In a document (`breaks`) breaks and tabs
/// stand for themselves. It ends where the XML breaks off.
pub open spec fn running_text(
    ev: Seq<EventModel>,
    breaks: bool,
    i: int,
    out: Output,
) -> Output
    decreases ev.len() - i + 1,
{
    if i < 0 || i >= ev.len() {
        out
    } else {
        match ev[i] {
            EventModel::Bad(_) => out,
            EventModel::Start(n, _) => if is_local(n, tag_t()) {
                running_text(ev, breaks, i + 2, capped_event(out, ev, i + 1))
            } else {
                running_text(ev, breaks, i + 1, out)
            },
            EventModel::End(n) => running_text(
                ev,
                breaks,
                i + 1,
                if is_local(n, tag_p()) {
                    capped(out, "\n"@)
                } else {
                    out
                },
            ),
            EventModel::Empty(n) => running_text(
                ev,
                breaks,
                i + 1,
                if breaks && is_local(n, tag_br()) {
                    capped(out, "\n"@)
                } else if breaks && is_local(n, tag_tab()) {
                    capped(out, "\t"@)
                } else {
                    out
                },
            ),
            _ => running_text(ev, breaks, i + 1, out),
        }
    }
}

/// The text at a place of a row of events, if one stands there.
fn text_at_event(events: &Vec<XmlEvent>, i: usize) -> (r: Option<&String>)
    ensures
        match r {
            Some(s) => text_event(event_models(events@), i as int) == Some(s@),
            None => text_event(event_models(events@), i as int) is None,
        },
{
    if i >= events.len() {
        return None;
    }
    assert(event_models(events@)[i as int] == events@[i as int]@);
    match &events[i] {
        XmlEvent::Text(Some(s)) => Some(s),
        _ => None,
    }
}

/// The place behind the next, or the end where there is none.
fn two_on(events: &Vec<XmlEvent>, i: usize) -> (r: usize)
    requires
        i < events.len(),
    ensures
        r == if i + 2 <= events.len() {
            i + 2
        } else {
            i + 1
        },
{
    if events.len() - i >= 2 {
        i + 2
    } else {
        i + 1
    }
}

/// Puts the text of a document's events behind what is there.
pub fn extract_runs(events: &Vec<XmlEvent>, breaks: bool, out: &mut Growing)
    requires
        old(out).wf(),
    ensures
        final(out).wf(),
        final(out)@ == running_text(event_models(events@), breaks, 0, old(out)@),
{
    let ghost ev = event_models(events@);
    let ghost goal = running_text(ev, breaks, 0, out@);
    let mut i: usize = 0;
    assert([116u8]@ =~= tag_t());
    assert([112u8]@ =~= tag_p());
    assert([98u8, 114u8]@ =~= tag_br());
    assert([116u8, 97u8, 98u8]@ =~= tag_tab());
    while i < events.len()
        invariant_except_break
            i <= events.len(),
            goal == running_text(ev, breaks, i as int, out@),
        invariant
            ev == event_models(events@),
            out.wf(),
            [116u8]@ == tag_t(),
            [112u8]@ == tag_p(),
            [98u8, 114u8]@ == tag_br(),
            [116u8, 97u8, 98u8]@ == tag_tab(),
        ensures
            goal == out@,
        decreases events.len() - i,
    {
        assert(ev[i as int] == events@[i as int]@);
        match &events[i] {
            XmlEvent::Bad(_) => {
                break;
            },
            XmlEvent::Start(n, _) => {
                if local_is(n, &[116u8]) {
                    if let Some(s) = text_at_event(events, i + 1) {
                        out.push_capped(s.as_str());
                    }
                    let k: usize = two_on(events, i);
                    assert(running_text(ev, breaks, i + 2, out@) == running_text(
                        ev,
                        breaks,
                        k as int,
                        out@,
                    ));
                    i = k;
                    continue;
                }
            },
            XmlEvent::End(n) => {
                if local_is(n, &[112u8]) {
                    out.push_capped("\n");
                }
            },
            XmlEvent::Empty(n) => {
                if breaks && local_is(n, &[98u8, 114u8]) {
                    out.push_capped("\n");
                } else if breaks && local_is(n, &[116u8, 97u8, 98u8]) {
                    out.push_capped("\t");
                }
            },
            _ => {},
        }
        i += 1;
    }
}

// ---------------------------------------------------------------------------------------------
// Spreadsheets
// ---------------------------------------------------------------------------------------------
/// The local name of a shared string.
pub open spec fn tag_si() -> Seq<u8> {
    seq![115u8, 105u8]
}

/// The local name of a cell.
pub open spec fn tag_c() -> Seq<u8> {
    seq![99u8]
}

/// The local name of a cell's value.
pub open spec fn tag_v() -> Seq<u8> {
    seq![118u8]
}

/// The local name of a row.
pub open spec fn tag_row() -> Seq<u8> {
    seq![114u8, 111u8, 119u8]
}

/// A text with what a place of a row of events says.
pub open spec fn with_event(s: Seq<char>, ev: Seq<EventModel>, i: int) -> Seq<char> {
    match text_event(ev, i) {
        Some(t) => s + t,
        None => s,
    }
}

/// The shared strings from the `i`-th event on, behind those in `list`: the texts inside one `si`
/// are one string. `inside` says whether a string is open, and `current` what it holds so far.
pub open spec fn shared_from(
    ev: Seq<EventModel>,
    i: int,
    inside: bool,
    current: Seq<char>,
    list: Seq<Seq<char>>,
) -> Seq<Seq<char>>
    decreases ev.len() - i + 1,
{
    if i < 0 || i >= ev.len() {
        list
    } else {
        match ev[i] {
            EventModel::Bad(_) => list,
            EventModel::Start(n, _) => if is_local(n, tag_si()) {
                shared_from(ev, i + 1, true, Seq::empty(), list)
            } else if inside && is_local(n, tag_t()) {
                shared_from(ev, i + 2, inside, with_event(current, ev, i + 1), list)
            } else {
                shared_from(ev, i + 1, inside, current, list)
            },
            EventModel::End(n) => if is_local(n, tag_si()) {
                shared_from(ev, i + 1, false, Seq::empty(), list.push(current))
            } else {
                shared_from(ev, i + 1, inside, current, list)
            },
            _ => shared_from(ev, i + 1, inside, current, list),
        }
    }
}

/// The shared strings in the events of a spreadsheet's list.
pub open spec fn shared_strings(ev: Seq<EventModel>) -> Seq<Seq<char>> {
    shared_from(ev, 0, false, Seq::empty(), Seq::empty())
}

/// The shared strings in the events of a spreadsheet's list.
pub fn parse_shared_strings(events: &Vec<XmlEvent>) -> (r: Vec<String>)
    ensures
        texts(r@) == shared_strings(event_models(events@)),
{
    let ghost ev = event_models(events@);
    let mut inside = false;
    let mut current = String::new();
    let mut out: Vec<String> = Vec::new();
    let mut i: usize = 0;
    assert(texts(out@) =~= Seq::empty());
    assert([115u8, 105u8]@ =~= tag_si());
    assert([116u8]@ =~= tag_t());
    while i < events.len()
        invariant_except_break
            i <= events.len(),
            shared_strings(ev) == shared_from(ev, i as int, inside, current@, texts(out@)),
        invariant
            ev == event_models(events@),
            [115u8, 105u8]@ == tag_si(),
            [116u8]@ == tag_t(),
        ensures
            shared_strings(ev) == texts(out@),
        decreases events.len() - i,
    {
        broadcast use lemma_texts_push;

        assert(ev[i as int] == events@[i as int]@);
        match &events[i] {
            XmlEvent::Bad(_) => {
                break;
            },
            XmlEvent::Start(n, _) => {
                if local_is(n, &[115u8, 105u8]) {
                    inside = true;
                    current = String::new();
                } else if inside && local_is(n, &[116u8]) {
                    if let Some(s) = text_at_event(events, i + 1) {
                        current.append(s.as_str());
                    }
                    let k: usize = two_on(events, i);
                    assert(shared_from(ev, i + 2, inside, current@, texts(out@)) == shared_from(
                        ev,
                        k as int,
                        inside,
                        current@,
                        texts(out@),
                    ));
                    i = k;
                    continue;
                }
            },
            XmlEvent::End(n) => {
                if local_is(n, &[115u8, 105u8]) {
                    inside = false;
                    out.push(current);
                    current = String::new();
                }
            },
            _ => {},
        }
        i += 1;
    }
    out
}

/// Whether a cell's tag says that the cell holds the number of a shared string.
pub open spec fn says_shared(a: Seq<AttributeModel>) -> bool {
    exists|k: int|
        0 <= k < a.len() && (#[trigger] a[k]).key == seq![116u8] && a[k].value == seq![115u8]
}

fn cell_shared(a: &Vec<Attribute>) -> (r: bool)
    ensures
        r == says_shared(crate::xml::attributes_model(a@)),
{
    let ghost m = crate::xml::attributes_model(a@);
    assert([116u8]@ =~= seq![116u8]);
    assert([115u8]@ =~= seq![115u8]);
    let mut i: usize = 0;
    while i < a.len()
        invariant
            i <= a.len(),
            m == crate::xml::attributes_model(a@),
            [116u8]@ == seq![116u8],
            [115u8]@ == seq![115u8],
            forall|k: int|
                0 <= k < i ==> !((#[trigger] m[k]).key == seq![116u8] && m[k].value == seq![115u8]),
        decreases a.len() - i,
    {
        if same_bytes(a[i].key.as_slice(), &[116u8]) && same_bytes(a[i].value.as_slice(), &[115u8]) {
            assert(m[i as int].key == seq![116u8]);
            return true;
        }
        i += 1;
    }
    false
}

/// What a cell shows: its text, or the shared string whose number its text is.
pub open spec fn shown_cell(
    out: Output,
    shared: Seq<Seq<char>>,
    by_number: bool,
    cell: Seq<char>,
) -> Output {
    if by_number {
        match parse_unsigned(trim(cell), usize::MAX as int) {
            Some(k) => if k < shared.len() {
                capped(out, shared[k])
            } else {
                out
            },
            None => out,
        }
    } else {
        capped(out, trim(cell))
    }
}

/// A cell that is being read.
pub struct Cell {
    pub inside: bool,
    pub by_number: bool,
    pub text: Seq<char>,
}

/// The text of a sheet from the `i`-th event on, behind `out`: cells end in a tab, and rows in a line
/// break in the place of their last tab.
pub open spec fn sheet_from(
    ev: Seq<EventModel>,
    shared: Seq<Seq<char>>,
    i: int,
    cell: Cell,
    out: Output,
) -> Output
    decreases ev.len() - i + 1,
{
    if i < 0 || i >= ev.len() {
        out
    } else {
        match ev[i] {
            EventModel::Bad(_) => out,
            EventModel::Start(n, a) => if is_local(n, tag_c()) {
                sheet_from(
                    ev,
                    shared,
                    i + 1,
                    Cell { inside: true, by_number: says_shared(a), text: Seq::empty() },
                    out,
                )
            } else if cell.inside && (is_local(n, tag_v()) || is_local(n, tag_t())) {
                sheet_from(
                    ev,
                    shared,
                    i + 2,
                    Cell { text: with_event(cell.text, ev, i + 1), ..cell },
                    out,
                )
            } else {
                sheet_from(ev, shared, i + 1, cell, out)
            },
            EventModel::End(n) => if is_local(n, tag_c()) {
                sheet_from(
                    ev,
                    shared,
                    i + 1,
                    Cell { inside: false, ..cell },
                    capped(shown_cell(out, shared, cell.by_number, cell.text), "\t"@),
                )
            } else if is_local(n, tag_row()) {
                sheet_from(ev, shared, i + 1, cell, capped(without_tab(out), "\n"@))
            } else {
                sheet_from(ev, shared, i + 1, cell, out)
            },
            _ => sheet_from(ev, shared, i + 1, cell, out),
        }
    }
}

/// The text of a sheet behind `out`.
pub open spec fn sheet_text(
    ev: Seq<EventModel>,
    shared: Seq<Seq<char>>,
    out: Output,
) -> Output {
    sheet_from(
        ev,
        shared,
        0,
        Cell { inside: false, by_number: false, text: Seq::empty() },
        out,
    )
}

fn show_cell(out: &mut Growing, shared: &Vec<String>, by_number: bool, cell: &str)
    requires
        old(out).wf(),
    ensures
        final(out).wf(),
        final(out)@ == shown_cell(old(out)@, texts(shared@), by_number, cell@),
{
    let t = trimmed(cell);
    if by_number {
        if let Some(k) = parse_u64_within(t.as_str(), usize::MAX as u64) {
            let k = k as usize;
            if k < shared.len() {
                assert(texts(shared@)[k as int] == shared@[k as int]@);
                out.push_capped(shared[k].as_str());
            }
        }
    } else {
        out.push_capped(t.as_str());
    }
}

/// Puts the text of a sheet's events behind what is there.
pub fn extract_sheet(events: &Vec<XmlEvent>, shared: &Vec<String>, out: &mut Growing)
    requires
        old(out).wf(),
    ensures
        final(out).wf(),
        final(out)@ == sheet_text(event_models(events@), texts(shared@), old(out)@),
{
    let ghost ev = event_models(events@);
    let ghost sh = texts(shared@);
    let ghost goal = sheet_text(ev, sh, out@);
    let mut inside = false;
    let mut by_number = false;
    let mut cell = String::new();
    let mut i: usize = 0;
    assert([99u8]@ =~= tag_c());
    assert([118u8]@ =~= tag_v());
    assert([116u8]@ =~= tag_t());
    assert([114u8, 111u8, 119u8]@ =~= tag_row());
    while i < events.len()
        invariant_except_break
            i <= events.len(),
            goal == sheet_from(
                ev,
                sh,
                i as int,
                (Cell { inside, by_number, text: cell@ }),
                out@,
            ),
        invariant
            ev == event_models(events@),
            sh == texts(shared@),
            out.wf(),
            [99u8]@ == tag_c(),
            [118u8]@ == tag_v(),
            [116u8]@ == tag_t(),
            [114u8, 111u8, 119u8]@ == tag_row(),
        ensures
            goal == out@,
        decreases events.len() - i,
    {
        assert(ev[i as int] == events@[i as int]@);
        match &events[i] {
            XmlEvent::Bad(_) => {
                break;
            },
            XmlEvent::Start(n, a) => {
                if local_is(n, &[99u8]) {
                    inside = true;
                    by_number = cell_shared(a);
                    cell = String::new();
                } else if inside && (local_is(n, &[118u8]) || local_is(n, &[116u8])) {
                    if let Some(s) = text_at_event(events, i + 1) {
                        cell.append(s.as_str());
                    }
                    let k: usize = two_on(events, i);
                    proof {
                        let c = Cell { inside, by_number, text: cell@ };
                        assert(sheet_from(ev, sh, i + 2, c, out@) == sheet_from(
                            ev,
                            sh,
                            k as int,
                            c,
                            out@,
                        ));
                    }
                    i = k;
                    continue;
                }
            },
            XmlEvent::End(n) => {
                if local_is(n, &[99u8]) {
                    inside = false;
                    show_cell(out, shared, by_number, cell.as_str());
                    out.push_capped("\t");
                } else if local_is(n, &[114u8, 111u8, 119u8]) {
                    out.drop_tab();
                    out.push_capped("\n");
                }
            },
            _ => {},
        }
        i += 1;
    }
}

// ---------------------------------------------------------------------------------------------
// Archives
// ---------------------------------------------------------------------------------------------
/// The bytes of an entry, or what is said where it cannot be read.
pub open spec fn part_of(list: Seq<Entry>, name: Seq<char>) -> Result<Seq<u8>, Seq<char>> {
    match read_of(list, name) {
        Ok(b) => Ok(b),
        Err(None) => Err("missing "@ + name),
        Err(Some(e)) => Err("read "@ + name + ": "@ + e),
    }
}

fn read_entry(archive: &mut zip::ZipArchive<std::io::Cursor<&[u8]>>, name: &str) -> (r: Result<
    Vec<u8>,
    String,
>)
    ensures
        zip_entries(*final(archive)) == zip_entries(*old(archive)),
        match r {
            Ok(b) => part_of(zip_entries(*old(archive)), name@) == Ok::<Seq<u8>, Seq<char>>(b@),
            Err(e) => part_of(zip_entries(*old(archive)), name@) == Err::<Seq<u8>, Seq<char>>(e@),
        },
{
    match read_named(archive, name) {
        Ok(b) => Ok(b),
        Err(ReadFailure::Missing) => Err(concat2("missing ", name)),
        Err(ReadFailure::Broken(e)) => Err(
            concat2(concat3("read ", name, ": ").as_str(), e.as_str()),
        ),
    }
}

/// The text of a Word document.
pub open spec fn docx_text(list: Seq<Entry>) -> Result<Output, Seq<char>> {
    match part_of(list, "word/document.xml"@) {
        Ok(xml) => Ok(running_text(xml_events(xml, false), true, 0, no_output())),
        Err(e) => Err(e),
    }
}

/// Whether an entry is a sheet.
pub open spec fn is_sheet(name: Seq<char>) -> bool {
    starts_with(name, "xl/worksheets/"@) && ends_with(name, ".xml"@)
}

/// The names among those given that are names of sheets.
pub open spec fn sheet_names(names: Seq<Seq<char>>) -> Seq<Seq<char>>
    decreases names.len(),
{
    if names.len() == 0 {
        Seq::empty()
    } else if is_sheet(names.last()) {
        sheet_names(names.drop_last()).push(names.last())
    } else {
        sheet_names(names.drop_last())
    }
}

/// The text of sheets from the `k`-th on, behind `out`.
pub open spec fn sheets_text(
    list: Seq<Entry>,
    shared: Seq<Seq<char>>,
    sheets: Seq<Seq<char>>,
    k: int,
    out: Output,
) -> Result<Output, Seq<char>>
    decreases sheets.len() - k,
{
    if k < 0 || k >= sheets.len() {
        Ok(out)
    } else {
        match part_of(list, sheets[k]) {
            Ok(xml) => sheets_text(
                list,
                shared,
                sheets,
                k + 1,
                sheet_text(xml_events(xml, false), shared, out),
            ),
            Err(e) => Err(e),
        }
    }
}

/// The text of a spreadsheet: its sheets in the order of their names. Shared strings that cannot be
/// read are none.
pub open spec fn xlsx_text(list: Seq<Entry>) -> Result<Output, Seq<char>> {
    let shared = match part_of(list, "xl/sharedStrings.xml"@) {
        Ok(xml) => shared_strings(xml_events(xml, false)),
        Err(_) => Seq::empty(),
    };
    let sheets = sorted(sheet_names(entry_names(list)), rising_texts());
    sheets_text(list, shared, sheets, 0, no_output())
}

/// A slide: its number and its entry.
pub struct Slide {
    pub num: u32,
    pub name: String,
}

/// A slide, read as its texts.
pub struct SlideModel {
    pub num: u32,
    pub name: Seq<char>,
}

/// The slides, read as their texts.
pub open spec fn slide_models(v: Seq<Slide>) -> Seq<SlideModel> {
    Seq::new(v.len(), |i: int| SlideModel { num: v[i].num, name: v[i].name@ })
}

/// The number of the slide that an entry is, if it is one.
pub open spec fn slide_number(name: Seq<char>) -> Option<int> {
    match strip_prefix(name, "ppt/slides/slide"@) {
        Some(rest) => match strip_suffix(rest, ".xml"@) {
            Some(n) => parse_unsigned(n, u32::MAX as int),
            None => None,
        },
        None => None,
    }
}

/// The slides among the entries of the given names.
pub open spec fn slides_in(names: Seq<Seq<char>>) -> Seq<SlideModel>
    decreases names.len(),
{
    if names.len() == 0 {
        Seq::empty()
    } else {
        let before = slides_in(names.drop_last());
        match slide_number(names.last()) {
            Some(n) => before.push(SlideModel { num: n as u32, name: names.last() }),
            None => before,
        }
    }
}

/// Slides in the order of their numbers.
pub open spec fn by_number() -> spec_fn(SlideModel, SlideModel) -> bool {
    |a: SlideModel, b: SlideModel| a.num < b.num
}

/// The text of slides from the `k`-th on, behind `out`: each below a line with its number, and with
/// an empty line behind it.
pub open spec fn slides_text(
    list: Seq<Entry>,
    slides: Seq<SlideModel>,
    k: int,
    out: Output,
) -> Result<Output, Seq<char>>
    decreases slides.len() - k,
{
    if k < 0 || k >= slides.len() {
        Ok(out)
    } else {
        match part_of(list, slides[k].name) {
            Ok(xml) => {
                let head = capped(out, "—— 第 "@ + decimal(slides[k].num as nat) + " 页 ——\n"@);
                let body = running_text(xml_events(xml, false), false, 0, head);
                slides_text(list, slides, k + 1, capped(body, "\n"@))
            },
            Err(e) => Err(e),
        }
    }
}

/// The text of a presentation.
pub open spec fn pptx_text(list: Seq<Entry>) -> Result<Output, Seq<char>> {
    slides_text(list, sorted(slides_in(entry_names(list)), by_number()), 0, no_output())
}

fn extract_docx(archive: &mut zip::ZipArchive<std::io::Cursor<&[u8]>>) -> (r: Result<
    Growing,
    String,
>)
    ensures
        match r {
            Ok(out) => out.wf() && docx_text(zip_entries(*old(archive))) == Ok::<
                Output,
                Seq<char>,
            >(out@),
            Err(e) => docx_text(zip_entries(*old(archive))) == Err::<Output, Seq<char>>(e@),
        },
{
    match read_entry(archive, "word/document.xml") {
        Ok(xml) => {
            let mut out = Growing::new();
            extract_runs(&read_events(xml.as_slice(), false), true, &mut out);
            Ok(out)
        },
        Err(e) => Err(e),
    }
}

/// The names among those given that are names of sheets.
pub fn list_sheets(names: &Vec<String>) -> (r: Vec<String>)
    ensures
        texts(r@) == sheet_names(texts(names@)),
{
    let ghost all = texts(names@);
    let mut out: Vec<String> = Vec::new();
    let mut i: usize = 0;
    assert(texts(out@) =~= sheet_names(all.take(0)));
    while i < names.len()
        invariant
            i <= names.len(),
            all == texts(names@),
            texts(out@) == sheet_names(all.take(i as int)),
        decreases names.len() - i,
    {
        broadcast use lemma_texts_push;

        proof {
            assert(all.take(i + 1).drop_last() =~= all.take(i as int));
            assert(all[i as int] == names@[i as int]@);
        }
        if has_prefix(names[i].as_str(), "xl/worksheets/") && has_suffix(names[i].as_str(), ".xml") {
            out.push(names[i].clone());
        }
        i += 1;
    }
    assert(all.take(all.len() as int) =~= all);
    out
}

fn extract_xlsx(archive: &mut zip::ZipArchive<std::io::Cursor<&[u8]>>) -> (r: Result<
    Growing,
    String,
>)
    ensures
        match r {
            Ok(out) => out.wf() && xlsx_text(zip_entries(*old(archive))) == Ok::<
                Output,
                Seq<char>,
            >(out@),
            Err(e) => xlsx_text(zip_entries(*old(archive))) == Err::<Output, Seq<char>>(e@),
        },
{
    let ghost list = zip_entries(*archive);
    let shared = match read_entry(archive, "xl/sharedStrings.xml") {
        Ok(xml) => parse_shared_strings(&read_events(xml.as_slice(), false)),
        Err(_) => Vec::new(),
    };
    proof {
        assert(texts(Seq::<String>::empty()) =~= Seq::<Seq<char>>::empty());
    }
    let sheets = sort_texts(&list_sheets(&zip_names(archive)));
    let ghost sh = texts(shared@);
    let ghost names = texts(sheets@);
    let mut out = Growing::new();
    let mut k: usize = 0;
    while k < sheets.len()
        invariant
            k <= sheets.len(),
            out.wf(),
            zip_entries(*archive) == list,
            list == zip_entries(*old(archive)),
            sh == texts(shared@),
            names == texts(sheets@),
            xlsx_text(list) == sheets_text(list, sh, names, k as int, out@),
        decreases sheets.len() - k,
    {
        assert(names[k as int] == sheets@[k as int]@);
        match read_entry(archive, sheets[k].as_str()) {
            Ok(xml) => {
                extract_sheet(&read_events(xml.as_slice(), false), &shared, &mut out);
            },
            Err(e) => {
                return Err(e);
            },
        }
        k += 1;
    }
    Ok(out)
}

/// The number of the slide that an entry is, if it is one.
pub fn number_of_slide(name: &str) -> (r: Option<u32>)
    ensures
        match r {
            Some(n) => slide_number(name@) == Some(n as int),
            None => slide_number(name@) is None,
        },
{
    match without_prefix(name, "ppt/slides/slide") {
        Some(rest) => match without_suffix(rest.as_str(), ".xml") {
            Some(n) => match parse_u64_within(n.as_str(), u32::MAX as u64) {
                Some(v) => {
                    proof {
                        assert(v <= u32::MAX);
                    }
                    Some(v as u32)
                },
                None => None,
            },
            None => None,
        },
        None => None,
    }
}

/// The slides among the entries of the given names, by their numbers.
pub fn list_slides(names: &Vec<String>) -> (r: Vec<Slide>)
    ensures
        slide_models(r@) == sorted(slides_in(texts(names@)), by_number()),
{
    let ghost all = texts(names@);
    let mut out: Vec<Slide> = Vec::new();
    let mut i: usize = 0;
    assert(slide_models(out@) =~= sorted(slides_in(all.take(0)), by_number()));
    while i < names.len()
        invariant
            i <= names.len(),
            all == texts(names@),
            slide_models(out@) == sorted(slides_in(all.take(i as int)), by_number()),
        decreases names.len() - i,
    {
        proof {
            assert(all.take(i + 1).drop_last() =~= all.take(i as int));
            assert(all.take(i + 1).last() == names@[i as int]@);
        }
        if let Some(num) = number_of_slide(names[i].as_str()) {
            let ghost list = slide_models(out@);
            let ghost x = SlideModel { num, name: names@[i as int]@ };
            let ghost before = slides_in(all.take(i as int));
            let mut k: usize = out.len();
            while k > 0 && num < out[k - 1].num
                invariant
                    k <= out.len(),
                    list == slide_models(out@),
                    x.num == num,
                    crate::order::place(list, x, by_number(), list.len() as int)
                        == crate::order::place(list, x, by_number(), k as int),
                decreases k,
            {
                k -= 1;
            }
            out.insert(k, Slide { num, name: names[i].clone() });
            proof {
                assert(slide_models(out@) =~= list.insert(k as int, x));
                assert(before.push(x).drop_last() =~= before);
            }
        }
        i += 1;
    }
    assert(all.take(all.len() as int) =~= all);
    out
}

fn extract_pptx(archive: &mut zip::ZipArchive<std::io::Cursor<&[u8]>>) -> (r: Result<
    Growing,
    String,
>)
    ensures
        match r {
            Ok(out) => out.wf() && pptx_text(zip_entries(*old(archive))) == Ok::<
                Output,
                Seq<char>,
            >(out@),
            Err(e) => pptx_text(zip_entries(*old(archive))) == Err::<Output, Seq<char>>(e@),
        },
{
    let ghost list = zip_entries(*archive);
    let slides = list_slides(&zip_names(archive));
    let ghost models = slide_models(slides@);
    let mut out = Growing::new();
    let mut k: usize = 0;
    while k < slides.len()
        invariant
            k <= slides.len(),
            out.wf(),
            zip_entries(*archive) == list,
            list == zip_entries(*old(archive)),
            models == slide_models(slides@),
            pptx_text(list) == slides_text(list, models, k as int, out@),
        decreases slides.len() - k,
    {
        assert(models[k as int] == (SlideModel {
            num: slides@[k as int].num,
            name: slides@[k as int].name@,
        }));
        match read_entry(archive, slides[k].name.as_str()) {
            Ok(xml) => {
                out.push_capped(
                    concat3(
                        "—— 第 ",
                        decimal_of(slides[k].num as u64).as_str(),
                        " 页 ——\n",
                    ).as_str(),
                );
                extract_runs(&read_events(xml.as_slice(), false), false, &mut out);
                out.push_capped("\n");
            },
            Err(e) => {
                return Err(e);
            },
        }
        k += 1;
    }
    Ok(out)
}

/// The whole text of an office document.
pub open spec fn whole_text(bytes: Seq<u8>, name: Seq<char>) -> Result<Output, Seq<char>> {
    if bytes.len() > MAX_SOURCE {
        Err("file too large to parse"@)
    } else {
        match zip_read(bytes) {
            Err(e) => Err("invalid office file: "@ + e),
            Ok(list) => if ends_with(lower(name), ".docx"@) {
                docx_text(list)
            } else if ends_with(lower(name), ".xlsx"@) {
                xlsx_text(list)
            } else if ends_with(lower(name), ".pptx"@) {
                pptx_text(list)
            } else {
                Err("unsupported office format"@)
            },
        }
    }
}

/// Whether a text is not handed out whole: its end was cut off, or something was left out.
pub open spec fn is_cut(t: Output) -> bool {
    t.dropped || byte_len(t.text) > MAX_EXTRACTED
}

/// What is handed out of a text: its beginning, where it is too long, with whole characters.
pub open spec fn handed_out(t: Output) -> Seq<char> {
    if byte_len(t.text) > MAX_EXTRACTED {
        t.text.take(fit(t.text, MAX_EXTRACTED as int))
    } else {
        t.text
    }
}

/// The text of an office document, and whether it reached the limit, so that the rest is missing.
pub fn extract_text(bytes: &[u8], name: &str) -> (r: Result<(String, bool), String>)
    ensures
        match whole_text(bytes@, name@) {
            Ok(t) => r is Ok && r->Ok_0.1 == is_cut(t) && r->Ok_0.0@ == handed_out(t),
            Err(e) => r is Err && r->Err_0@ == e,
        },
        r is Ok ==> byte_len(r->Ok_0.0@) <= MAX_EXTRACTED,
{
    if bytes.len() as u64 > MAX_SOURCE {
        return Err("file too large to parse".to_owned());
    }
    let mut archive = match open_zip(bytes) {
        Ok(a) => a,
        Err(e) => {
            return Err(concat2("invalid office file: ", e.as_str()));
        },
    };
    let low = to_lower(name);
    let found = if has_suffix(low.as_str(), ".docx") {
        extract_docx(&mut archive)
    } else if has_suffix(low.as_str(), ".xlsx") {
        extract_xlsx(&mut archive)
    } else if has_suffix(low.as_str(), ".pptx") {
        extract_pptx(&mut archive)
    } else {
        Err("unsupported office format".to_owned())
    };
    let out = match found {
        Ok(out) => out,
        Err(e) => {
            return Err(e);
        },
    };
    if out.bytes > MAX_EXTRACTED as u128 {
        let (k, _) = fit_of(&out.text, MAX_EXTRACTED as u128);
        let s = slice(&out.text, 0, k);
        assert(out.text@.subrange(0, k as int) =~= out.text@.take(k as int));
        Ok((s, true))
    } else {
        Ok((string_of(&out.text), out.dropped))
    }
}

/// Slides come in the order of their numbers, and none is lost.
pub proof fn law_slides_in_order(names: Seq<Seq<char>>)
    ensures
        in_order(sorted(slides_in(names), by_number()), by_number()),
        sorted(slides_in(names), by_number()).to_multiset() == slides_in(names).to_multiset(),
{
    law_sorted(slides_in(names), by_number());
}

} // verus!
