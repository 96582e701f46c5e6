//! The daily-note template, its file path, and the decisions of the
//! daily-note command: configuration from environment values, which date
//! strings to use, and what to write into the note file.

use vstd::prelude::*;
use crate::date::{add_days, date_with_index, valid_ymd, Date, TOTAL_DAYS};
use crate::render::{date_chars, format_date};
use chrono::Datelike;

verus! {

/// The note template for a day `today` between `yesterday` and `tomorrow`:
/// a heading with the date, a wiki-link line to the neighbouring days, a
/// tracker section with one empty checkbox, and an empty log section.
pub open spec fn template_chars(today: Seq<char>, yesterday: Seq<char>, tomorrow: Seq<char>) -> Seq<
    char,
> {
    "# "@ + today + "\n\n[["@ + yesterday + "]] - [["@ + tomorrow
        + "]]\n\n## Tracker\n  - [ ] \n\n## Log\n\n"@
}

/// Renders the daily-note template for the three date strings.
pub fn render_template(today: &str, yesterday: &str, tomorrow: &str) -> (r: String)
    ensures
        r@ == template_chars(today@, yesterday@, tomorrow@),
{
    let mut s = String::from_str("# ");
    s.append(today);
    s.append("\n\n[[");
    s.append(yesterday);
    s.append("]] - [[");
    s.append(tomorrow);
    s.append("]]\n\n## Tracker\n  - [ ] \n\n## Log\n\n");
    s
}

/// The path of the daily note for `today` under the base directory:
/// `{base}/periodic-notes/daily-notes/{today}.md`.
pub open spec fn note_path_chars(base: Seq<char>, today: Seq<char>) -> Seq<char> {
    base + "/periodic-notes/daily-notes/"@ + today + ".md"@
}

/// Builds the daily-note file path for `today` under `base`.
pub fn note_path(base: &str, today: &str) -> (r: String)
    ensures
        r@ == note_path_chars(base@, today@),
{
    let mut s = String::from_str(base);
    s.append("/periodic-notes/daily-notes/");
    s.append(today);
    s.append(".md");
    s
}

/// What a creation pass leaves in the note file: absent content is replaced
/// by the freshly rendered template, existing content is kept untouched.
pub open spec fn note_after_create(
    existing: Option<Seq<char>>,
    today: Seq<char>,
    yesterday: Seq<char>,
    tomorrow: Seq<char>,
) -> Option<Seq<char>> {
    match existing {
        None => Some(template_chars(today, yesterday, tomorrow)),
        Some(c) => Some(c),
    }
}

/// Note creation is idempotent: a creation pass over a file that already
/// holds content — in particular the content an earlier pass produced —
/// leaves that content exactly as it is.
pub proof fn lemma_note_creation_idempotent(
    existing: Option<Seq<char>>,
    today: Seq<char>,
    yesterday: Seq<char>,
    tomorrow: Seq<char>,
)
    ensures
        note_after_create(
            note_after_create(existing, today, yesterday, tomorrow),
            today,
            yesterday,
            tomorrow,
        ) == note_after_create(existing, today, yesterday, tomorrow),
{
}

/// Decides what to write for the daily note: the full template when the file
/// does not exist yet, nothing when it already does. Writing the returned
/// content (or leaving the file alone on `None`) takes any file content that
/// matches `file_exists` to exactly what a creation pass leaves behind.
pub fn plan_note_content(file_exists: bool, today: &str, yesterday: &str, tomorrow: &str) -> (r:
    Option<String>)
    ensures
        match r {
            Some(s) => !file_exists && s@ == template_chars(today@, yesterday@, tomorrow@),
            None => file_exists,
        },
        forall|existing: Option<Seq<char>>|
            (existing is Some <==> file_exists) ==> note_after_create(
                existing,
                today@,
                yesterday@,
                tomorrow@,
            ) == (match r {
                Some(s) => Some(s@),
                None => existing,
            }),
{
    if file_exists {
        None
    } else {
        Some(render_template(today, yesterday, tomorrow))
    }
}

/// Configuration for one run: the notes base directory and the editor
/// command.
pub struct Config {
    pub base_dir: String,
    pub editor: String,
}

/// Builds the run configuration from the two environment values: the
/// required notes base directory and the optional editor command, which
/// falls back to `nvim`. Fails exactly when the base directory is not given,
/// so a run without it stops before any date or file work.
pub fn make_config(base_dir: Option<String>, editor: Option<String>) -> (r: Option<Config>)
    ensures
        match r {
            Some(c) => base_dir matches Some(b) && c.base_dir@ == b@ && (match editor {
                Some(e) => c.editor@ == e@,
                None => c.editor@ == "nvim"@,
            }),
            None => base_dir is None,
        },
{
    match base_dir {
        None => None,
        Some(b) => Some(
            Config {
                base_dir: b,
                editor: match editor {
                    Some(e) => e,
                    None => "nvim".to_owned(),
                },
            },
        ),
    }
}

/// The current date in the process's local timezone, as year, month and day.
///
/// Relies on `chrono::Local::now` and the `chrono::Datelike` accessors of the
/// resulting `NaiveDate`: `month` is 1 through 12 and `day` is 1 through the
/// length of that month in that year, so the three parts always name a real
/// calendar date. Which date comes back depends on the clock and the local
/// timezone, so nothing more is promised.
#[verifier::external_body]
fn local_today_ymd() -> (r: (i64, u8, u8))
    ensures
        valid_ymd(r.0 as int, r.1 as int, r.2 as int),
{
    let d = chrono::Local::now().date_naive();
    (d.year() as i64, d.month() as u8, d.day() as u8)
}

/// The current local calendar date, or `None` when its year does not have
/// exactly four digits.
pub fn current_date() -> (r: Option<Date>)
    ensures
        r matches Some(d) ==> d.wf(),
{
    let (y, m, d) = local_today_ymd();
    Date::new(y, m, d)
}

/// The date `offset_days` away from `base`, formatted `YYYY-MM-DD`, or
/// `None` when that date falls outside years 1 through 9999.
pub fn date_string_for(base: &Date, offset_days: i64) -> (r: Option<String>)
    requires
        base.wf(),
    ensures
        match r {
            Some(s) => 0 <= base.index() + offset_days < TOTAL_DAYS && date_with_index(
                base.index() + offset_days,
            ).wf() && s@ == date_chars(date_with_index(base.index() + offset_days))
                && s@.len() == 10,
            None => !(0 <= base.index() + offset_days < TOTAL_DAYS),
        },
{
    match add_days(base, offset_days) {
        None => None,
        Some(e) => Some(format_date(&e)),
    }
}

/// The local date `offset_days` days from today, formatted `YYYY-MM-DD` with
/// a zero-padded four-digit year, or `None` when that date falls outside
/// years 1 through 9999. Which date counts as today depends on the clock and
/// the local timezone; whatever comes back is a well-formed date string.
pub fn get_date_string(offset_days: i64) -> (r: Option<String>)
    ensures
        r matches Some(s) ==> s@.len() == 10 && (exists|d: Date| d.wf() && s@ == date_chars(d)),
{
    match current_date() {
        None => None,
        Some(today) => {
            let r = date_string_for(&today, offset_days);
            proof {
                if r is Some {
                    let w = date_with_index(today.index() + offset_days);
                    assert(w.wf() && r->Some_0@ == date_chars(w));
                }
            }
            r
        },
    }
}

} // verus!
