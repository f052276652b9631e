//! The model's answers as read back, and the priority report posted as an
//! issue.

use vstd::prelude::*;

use crate::github::{utc_date, utc_date_of};
use crate::table::SortedTable;
use crate::text::{contains_text, decimal, lemma_contains_middle, push_decimal, push_str};

verus! {

/// One project of the priority order.
#[derive(Debug)]
pub struct PrioItem {
    pub project_name: String,
    pub priority: u8,
    pub justification: String,
}

/// The priority order that the model answered, with its notes.
#[derive(Debug)]
pub struct PrioModelOutput {
    pub order: Vec<PrioItem>,
    pub notes: String,
}

/// The model's opinion of one attribute of a project.
#[derive(Debug)]
pub struct Opinion {
    pub reason: String,
    pub score: u8,
}

/// The model's answer on one project: opinions by attribute, and notes.
#[derive(Debug)]
pub struct ProjectModelOutput {
    pub opinions: SortedTable<Opinion>,
    pub notes: String,
}

/// The line of the item at position `i` (counted from 0).
pub open spec fn item_line(i: nat, item: PrioItem) -> Seq<char> {
    decimal(i + 1) + ". **"@ + item.project_name@ + "** ("@ + decimal(item.priority as nat) + ") : "@
        + item.justification@ + "\n"@
}

/// The lines of the first `n` items.
pub open spec fn item_lines(items: Seq<PrioItem>, n: nat) -> Seq<char>
    decreases n,
{
    if n == 0 {
        Seq::empty()
    } else {
        item_lines(items, (n - 1) as nat) + item_line((n - 1) as nat, items[n - 1])
    }
}

/// The report: a heading, one numbered line per project in the order given,
/// and the notes.
pub open spec fn report_text(items: Seq<PrioItem>, notes: Seq<char>) -> Seq<char> {
    "## Priority order\n\n"@ + item_lines(items, items.len()) + "\n**Notes:** "@ + notes
}

/// The lines of the first `m` items come first among those of the first `n`.
proof fn lemma_item_lines_prefix(items: Seq<PrioItem>, m: nat, n: nat) -> (rest: Seq<char>)
    requires
        m <= n,
    ensures
        item_lines(items, n) == item_lines(items, m) + rest,
    decreases n,
{
    if m == n {
        assert(item_lines(items, n) =~= item_lines(items, m) + Seq::<char>::empty());
        Seq::<char>::empty()
    } else {
        let rest = lemma_item_lines_prefix(items, m, (n - 1) as nat);
        assert(item_lines(items, n) =~= item_lines(items, m) + (rest + item_line((n - 1) as nat, items[n - 1])));
        rest + item_line((n - 1) as nat, items[n - 1])
    }
}

/// The report opens with its heading, closes with the notes, and holds for
/// every item, in its place, a line with its rank (counted from 1), its whole
/// name, its priority and its whole justification.
pub proof fn lemma_report_lines(items: Seq<PrioItem>, notes: Seq<char>, i: int)
    requires
        0 <= i < items.len(),
    ensures
        report_text(items, notes).take(19) == "## Priority order\n\n"@,
        report_text(items, notes).skip(report_text(items, notes).len() - (12 + notes.len())) == "\n**Notes:** "@ + notes,
        contains_text(
            report_text(items, notes),
            decimal((i + 1) as nat) + ". **"@ + items[i].project_name@ + "** ("@ + decimal(items[i].priority as nat) + ") : "@
                + items[i].justification@ + "\n"@,
        ),
{
    reveal_strlit("## Priority order\n\n");
    reveal_strlit("\n**Notes:** ");
    let t = report_text(items, notes);
    let head = "## Priority order\n\n"@;
    let tail = "\n**Notes:** "@ + notes;
    let n = items.len();
    assert(t =~= head + item_lines(items, n) + tail);
    assert(t.take(19) =~= head);
    assert(t.skip(t.len() - (12 + notes.len())) =~= tail);
    let rest = lemma_item_lines_prefix(items, (i + 1) as nat, n);
    let line = item_line(i as nat, items[i]);
    assert(item_lines(items, (i + 1) as nat) == item_lines(items, i as nat) + line);
    assert(t =~= (head + item_lines(items, i as nat)) + line + (rest + tail));
    lemma_contains_middle(head + item_lines(items, i as nat), line, rest + tail);
}

/// The report lists the items in the order given: the first item's line
/// follows the heading at once, and each item's line is followed at once by
/// the next item's line.
pub proof fn lemma_report_order(items: Seq<PrioItem>, notes: Seq<char>, i: int)
    requires
        0 <= i,
        i + 1 < items.len(),
    ensures
        ({
            let l0 = decimal(1) + ". **"@ + items[0].project_name@ + "** ("@ + decimal(items[0].priority as nat) + ") : "@
                + items[0].justification@ + "\n"@;
            report_text(items, notes).take(19 + l0.len() as int) == "## Priority order\n\n"@ + l0
        }),
        contains_text(
            report_text(items, notes),
            (decimal((i + 1) as nat) + ". **"@ + items[i].project_name@ + "** ("@ + decimal(items[i].priority as nat) + ") : "@
                + items[i].justification@ + "\n"@) + (decimal((i + 2) as nat) + ". **"@ + items[i + 1].project_name@ + "** ("@
                + decimal(items[i + 1].priority as nat) + ") : "@ + items[i + 1].justification@ + "\n"@),
        ),
{
    reveal_strlit("## Priority order\n\n");
    let t = report_text(items, notes);
    let head = "## Priority order\n\n"@;
    let tail = "\n**Notes:** "@ + notes;
    let n = items.len();
    let l0 = item_line(0, items[0]);
    let r0 = lemma_item_lines_prefix(items, 1, n);
    assert(item_lines(items, 0) == Seq::<char>::empty());
    assert(item_lines(items, 1) == item_lines(items, 0) + l0);
    assert(item_lines(items, 1) =~= l0);
    assert(t =~= head + l0 + (r0 + tail));
    assert(t.take(19 + l0.len() as int) =~= head + l0);
    let rest = lemma_item_lines_prefix(items, (i + 2) as nat, n);
    let a = item_line(i as nat, items[i]);
    let b = item_line((i + 1) as nat, items[i + 1]);
    assert(item_lines(items, (i + 2) as nat) == item_lines(items, (i + 1) as nat) + b);
    assert(item_lines(items, (i + 1) as nat) == item_lines(items, i as nat) + a);
    assert(t =~= (head + item_lines(items, i as nat)) + (a + b) + (rest + tail));
    lemma_contains_middle(head + item_lines(items, i as nat), a + b, rest + tail);
}

impl PrioModelOutput {
    /// The report text of the answer.
    pub fn render(&self) -> (r: String)
        ensures
            r@ == report_text(self.order@, self.notes@),
    {
        let mut r = String::new();
        push_str(&mut r, "## Priority order\n\n");
        let n = self.order.len();
        let mut i: usize = 0;
        while i < n
            invariant
                n == self.order@.len(),
                i <= n,
                r@ == "## Priority order\n\n"@ + item_lines(self.order@, i as nat),
            decreases n - i,
        {
            let item = &self.order[i];
            push_decimal(&mut r, (i as u64) + 1);
            push_str(&mut r, ". **");
            push_str(&mut r, item.project_name.as_str());
            push_str(&mut r, "** (");
            push_decimal(&mut r, item.priority as u64);
            push_str(&mut r, ") : ");
            push_str(&mut r, item.justification.as_str());
            push_str(&mut r, "\n");
            assert(r@ =~= "## Priority order\n\n"@ + item_lines(self.order@, (i + 1) as nat));
            i = i + 1;
        }
        push_str(&mut r, "\n**Notes:** ");
        push_str(&mut r, self.notes.as_str());
        r
    }
}

/// The title of the report issue for the date of `secs`.
pub open spec fn title_text(date: Seq<char>) -> Seq<char> {
    "\u{2615}\u{FE0E} Chalk Priority Report \u{2014} "@ + date
}

/// The title of the report issue posted at UNIX time `now_secs`; `None` where
/// that time lies outside the calendar.
pub fn report_title(now_secs: i64) -> (r: Option<String>)
    ensures
        r matches Some(t) ==> utc_date_of(now_secs) matches Some(d) && t@ == title_text(d),
        r is None ==> utc_date_of(now_secs) is None,
{
    match utc_date(now_secs) {
        Some(d) => {
            let mut r = String::new();
            push_str(&mut r, "\u{2615}\u{FE0E} Chalk Priority Report \u{2014} ");
            push_str(&mut r, d.as_str());
            Some(r)
        },
        None => None,
    }
}

} // verus!
