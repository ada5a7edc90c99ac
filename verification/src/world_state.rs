//! The ledger as a section of the world state: rendered once per change, and again where the
//! model-visible copy is no longer in the retained history.

use vstd::prelude::*;
use vstd::string::StringExecFns;

use crate::ledger::model::Ledger;
use crate::ledger::model::LedgerModel;
use crate::ledger::render::render;
use crate::ledger::render::rendered_of;
use crate::text::chars_of;
use crate::text::maybe;
use crate::text::same;
use crate::text_laws::mentioned_within;
use crate::text_laws::mentions;
use crate::text_laws::mentions_itself;

verus! {

/// The name of the section.
pub const TASKS_WORLD_STATE_ID: &'static str = "tasks";

/// What opens the section.
pub const TASK_LEDGER_OPEN_TAG: &'static str = "<task-ledger>";

/// What closes the section.
pub const TASK_LEDGER_CLOSE_TAG: &'static str = "</task-ledger>";

/// The body of the section.
pub open spec fn section_of(rendered: Seq<char>) -> Seq<char> {
    "Ledger at the start of this step. Later tool results take precedence over this snapshot."@
        + "\n"@ + rendered
}

/// The body of the section.
pub fn section_body(rendered: &str) -> (body: String)
    ensures
        body@ == section_of(rendered@),
{
    let mut body =
        "Ledger at the start of this step. Later tool results take precedence over this snapshot.".to_string();
    body.append("\n");
    body.append(rendered);
    body
}

/// Whether the section is to be rendered: not where the body that is known already is the same.
pub fn is_stale(body: &str, previous: Option<&str>) -> (r: bool)
    ensures
        r == !(previous is Some && previous->0@ == body@),
{
    match previous {
        Some(previous) => !same(previous, body),
        None => true,
    }
}

/// Some part of a text is another.
pub open spec fn occurs(text: Seq<char>, part: Seq<char>) -> bool {
    exists|k: int| occurs_at(text, part, k)
}

/// The part of a text from a place on starts with another.
pub open spec fn occurs_at(text: Seq<char>, part: Seq<char>, k: int) -> bool {
    0 <= k && k + part.len() <= text.len() && text.subrange(k, k + part.len()) == part
}

/// Whether some part of a text is another.
pub fn contains_text(text: &str, part: &str) -> (r: bool)
    ensures
        r == occurs(text@, part@),
{
    let whole = chars_of(text);
    let wanted = chars_of(part);
    if wanted.len() > whole.len() {
        return false;
    }
    let total: usize = whole.len();
    let last: usize = total - wanted.len();
    let mut k: usize = 0;
    loop
        invariant
            whole@ == text@,
            wanted@ == part@,
            k <= last,
            last + wanted@.len() == total,
            whole@.len() == total,
            forall|j: int| 0 <= j < k ==> !occurs_at(text@, part@, j),
        decreases last - k,
    {
        let mut i: usize = 0;
        while i < wanted.len() && whole[k + i] == wanted[i]
            invariant
                whole@ == text@,
                wanted@ == part@,
                k <= last,
                last + wanted@.len() == total,
                whole@.len() == total,
                i <= wanted@.len(),
                forall|j: int| 0 <= j < i ==> whole@[k + j] == wanted@[j],
            decreases wanted@.len() - i,
        {
            i += 1;
        }
        if i == wanted.len() {
            assert(text@.subrange(k as int, k + part@.len()) == part@);
            assert(occurs_at(text@, part@, k as int));
            return true;
        }
        assert(!occurs_at(text@, part@, k as int)) by {
            if text@.subrange(k as int, k + part@.len()) == part@ {
                assert(text@.subrange(k as int, k + part@.len())[i as int] == part@[i as int]);
            }
        }
        if k == last {
            return false;
        }
        k += 1;
    }
}

/// Whether a retained fragment of the history holds the section.
pub fn is_retained(role: &str, text: &str, body: &str) -> (r: bool)
    ensures
        r == (role@ == "developer"@ && occurs(text@, body@)),
{
    same(role, "developer") && contains_text(text, body)
}

/// What the section shows: nothing with the ledger off, or for a ledger that holds nothing and was
/// never stored.
pub open spec fn world_state_of(
    enabled: bool,
    ledger: LedgerModel,
    stored: bool,
    file: Seq<char>,
) -> Option<Seq<char>> {
    if !enabled || (ledger.tasks.len() == 0 && ledger.pause is None && !stored) {
        None
    } else {
        Some(section_of("Ledger file: "@ + file + "\n"@ + rendered_of(ledger)))
    }
}

/// What the section shows.
pub fn world_state(enabled: bool, ledger: &Ledger, stored: bool, file: &str) -> (r: Option<String>)
    ensures
        maybe(r) == world_state_of(enabled, ledger.model(), stored, file@),
{
    if !enabled || (ledger.tasks.len() == 0 && ledger.pause.is_none() && !stored) {
        return None;
    }
    let mut text = "Ledger file: ".to_string();
    text.append(file);
    text.append("\n");
    text.append(render(ledger).as_str());
    Some(section_body(text.as_str()))
}

/// The section is shown exactly where the ledger is on, and holds a task or a pause or was stored; it
/// names the file and holds the overview.
pub proof fn world_state_shows_the_ledger(
    enabled: bool,
    ledger: LedgerModel,
    stored: bool,
    file: Seq<char>,
)
    ensures
        world_state_of(enabled, ledger, stored, file) is Some <==> enabled && (ledger.tasks.len() > 0
            || ledger.pause is Some || stored),
        world_state_of(enabled, ledger, stored, file) matches Some(text) ==> mentions(text, file)
            && mentions(text, rendered_of(ledger)),
{
    if let Some(text) = world_state_of(enabled, ledger, stored, file) {
        let lead =
            "Ledger at the start of this step. Later tool results take precedence over this snapshot."@
            + "\n"@;
        let head = lead + "Ledger file: "@;
        let none = Seq::<char>::empty();
        mentions_itself(file);
        mentioned_within(head, file, "\n"@ + rendered_of(ledger), file);
        assert(text =~= head + file + ("\n"@ + rendered_of(ledger)));
        mentions_itself(rendered_of(ledger));
        mentioned_within(
            head + file + "\n"@,
            rendered_of(ledger),
            none,
            rendered_of(ledger),
        );
        assert(text =~= head + file + "\n"@ + rendered_of(ledger) + none);
    }
}

} // verus!
