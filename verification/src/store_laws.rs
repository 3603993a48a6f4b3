//! What stores are told they hold: excerpts, links between notes, the current vault, and the PDF of a link.
use vstd::prelude::*;
use vstd::string::*;

use crate::import_store::{error_line, with_pdf, LinkPdf};
use crate::link_import::{with_pdf_info, ErrorModel, LinkModel, MetadataModel};
use crate::models::{Note, Setting};
use crate::note_laws::law_every_named_note_is_linked;
use crate::note_service::{is_linked, links_added, links_of_others, wiki_links, StoredLinkModel, TitledNote};
use crate::note_store::{are_titles, is_excerpted, is_relinked, merge_error, NewExcerpt};
use crate::record_laws::law_excerpt_stands_at_the_end;
use crate::settings_service::setting_of;
use crate::table::law_first_place;
use crate::text::{holds, opt_text, trim};
use crate::vault_store::{current_vault, is_switched};

verus! {

// ---------------------------------------------------------------------------------------------
// Notes
// ---------------------------------------------------------------------------------------------
/// An excerpt that was added stands at the end of the note that holds the excerpts of its paper, or is the
/// text of a new one, and every other note is as it was.
pub proof fn law_excerpt_is_kept(
    mid: Seq<Note>,
    r: Seq<Note>,
    x: NewExcerpt,
    folder: Seq<char>,
    now: Seq<char>,
    k: int,
    j: int,
)
    requires
        is_excerpted(mid, r, x, folder, now, k),
        0 <= j < mid.len(),
    ensures
        0 <= k < r.len(),
        opt_text(r[k].paper_id) == Some(x.paper_id@),
        opt_text(r[k].parent_id) == Some(folder),
        r[k].is_excerpt == 1,
        r[k].content@.len() >= x.text@.len(),
        r[k].content@.skip(r[k].content@.len() - x.text@.len()) == x.text@,
        j != k ==> r[j] == mid[j],
        mid.len() <= r.len() <= mid.len() + 1,
{
    let wanted = crate::note_store::excerpts_of(x.paper_id@, folder);
    law_first_place(mid, wanted, 0);
    match crate::table::first_place(mid, wanted, 0) {
        Some(f) => {
            law_excerpt_stands_at_the_end(mid[f], x.text@, now, r[f]);
            assert(wanted(mid[f]));
            let e = choose|e: crate::note_service::NoteEdit| #[trigger]
                crate::note_service::is_edited(mid[f], e, now, r[f]) && e.title is None
                    && e.paper_id is None && e.aliases is None && e.is_favorite is None && e.touch
                    is None && e.content is Some && e.content->0@ == mid[f].content@
                    + "\n\n---\n\n"@ + x.text@;
        },
        None => {
            assert(r[k].content@ == x.text@);
            assert(x.text@.skip(0) =~= x.text@);
            assert(r.drop_last()[j] == r[j]);
        },
    }
}

/// Once a note was written, every note that its text names is linked to it: the first with the title.
pub proof fn law_written_links_are_stored(
    a: Seq<StoredLinkModel>,
    notes: Seq<Note>,
    n: Note,
    r: Seq<StoredLinkModel>,
    k: int,
    t: int,
)
    requires
        is_relinked(a, notes, n, r),
        0 <= k < wiki_links(n.content@).len(),
        0 <= t < notes.len(),
        notes[t].title@ == wiki_links(n.content@)[k],
        forall|j: int| 0 <= j < t ==> (#[trigger] notes[j]).title@ != notes[t].title@,
    ensures
        is_linked(r, n.id@, notes[t].id@),
{
    let list = choose|list: Seq<TitledNote>| #[trigger]
        are_titles(notes, list) && r == links_added(
            links_of_others(a, n.id@),
            list,
            n.id@,
            wiki_links(n.content@),
        );
    assert(list[t].id@ == notes[t].id@ && list[t].title@ == notes[t].title@);
    assert forall|j: int| 0 <= j < t implies (#[trigger] list[j]).title@ != wiki_links(
        n.content@,
    )[k] by {
        assert(list[j].title@ == notes[j].title@);
        assert(notes[j].title@ != notes[t].title@);
    }
    law_every_named_note_is_linked(
        links_of_others(a, n.id@),
        list,
        n.id@,
        wiki_links(n.content@),
        k,
        t,
        n.id@,
        n.id@,
    );
}

/// A note can be merged into the excerpts of a paper just where it is no excerpt note itself, is a note on
/// that paper and says something.
pub proof fn law_note_of_the_paper_can_be_merged(n: Note, paper: Seq<char>)
    ensures
        merge_error(n, paper) is None <==> n.is_excerpt != 1 && opt_text(n.paper_id) == Some(paper)
            && trim(n.content@).len() > 0,
{
}

// ---------------------------------------------------------------------------------------------
// Vaults
// ---------------------------------------------------------------------------------------------
/// When the current vault is deleted another one becomes the current one, and all other settings stay; the
/// deletion of another vault changes nothing.
pub proof fn law_another_vault_becomes_current(
    a: Seq<Setting>,
    r: Seq<Setting>,
    ids: Seq<Seq<char>>,
    deleted: Seq<char>,
    k: int,
    key: Seq<char>,
)
    requires
        is_switched(a, r, ids, deleted),
    ensures
        current_vault(a) != deleted ==> r == a,
        current_vault(a) == deleted && 0 <= k < ids.len() && ids[k] != deleted ==> current_vault(r)
            != deleted && holds(ids, current_vault(r)),
        key != "notes.current_vault_id"@ ==> setting_of(r, key) == setting_of(a, key),
{
    if key != "notes.current_vault_id"@ && r != a {
        assert(setting_of(r, key) == setting_of(a, key));
    }
}

// ---------------------------------------------------------------------------------------------
// Links
// ---------------------------------------------------------------------------------------------
/// What the PDF of a link says of itself is used where the PDF was read, and nothing is lost where it was
/// not.
pub proof fn law_pdf_of_a_link_is_used(link: LinkModel, m: MetadataModel, pdf: LinkPdf)
    ensures
        pdf.info() is Some ==> with_pdf(link, m, pdf) == with_pdf_info(
            m,
            link is DirectPdf,
            pdf.info()->0,
        ),
        pdf.info() is None ==> with_pdf(link, m, pdf) == m,
{
}

/// An error is told with its code and its message.
pub proof fn law_error_has_code_and_message(e: ErrorModel)
    ensures
        error_line(e) == "["@ + e.code + "] "@ + e.message,
{
}

} // verus!
