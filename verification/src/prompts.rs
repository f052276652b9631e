//! The text of the prompts: one per project, and the priority prompt over
//! all projects. What the prompts quote of a project, its history and the
//! model's answers is their `Debug` rendering, handed in as text.

use vstd::prelude::*;

use crate::github::{FALLBACK_COMMIT_COUNT, LOOKBACK_DAYS};
use crate::request::{lemma_decimal_numeral, numeral};
use crate::text::{contains_text, decimal, occurs_at, lemma_contains_middle, lemma_contains_trans, push_char, push_decimal, push_str};

verus! {

/// The opening of the priority prompt.
pub const BUNDLE_INTRO: &'static str = "You are an agent working on an assignment that synthesizes user scored attributes, commit history, and information aggregated by per-project agents one level below you. Your job is to look into and across all bundled project information to recommend a priority list for what the user should work on next. If there is no history, then the project has not been started yet.\n\n";

/// What comes before the configuration in the priority prompt.
pub const BUNDLE_WEIGHTS_HEAD: &'static str = "Attribute weights (higher = more important to the user):
            ";

/// What comes after the configuration in the priority prompt.
pub const BUNDLE_WEIGHTS_TAIL: &'static str = "\n\n";

/// What comes before a project in its section.
pub const SECTION_PROJECT: &'static str = "
                Project: ";

/// What comes before the days since the last commit.
pub const SECTION_DAYS: &'static str = "\n\
                Days since last commit: ";

/// What comes before the sub-agent opinions.
pub const SECTION_OPINIONS: &'static str = "\n\
                SubAgent Opinions: ";

/// What comes before the sub-agent notes.
pub const SECTION_NOTES: &'static str = "\n\
                SubAgent Notes: ";

/// What ends a section.
pub const SECTION_END: &'static str = "\n\n\
                ";

/// What comes before the first project count.
pub const CLOSING_HEAD: &'static str = "
            \nUsing all project information, independently derive a priority score for each project (bounded [0, 100]), where a higher score means the project should be worked on sooner. The gap between two projects' scores should reflect how close a call it is — close scores mean it's a toss-up, a large gap means one is clearly more urgent. List `order` sorted from highest score to lowest.

            There are exactly ";

/// What comes between the two project counts.
pub const CLOSING_MIDDLE: &'static str = " projects listed above. Your `order` array MUST include all ";

/// The rest of the priority prompt.
pub const CLOSING_TAIL: &'static str = " of them, each exactly once — do not omit, merge, or duplicate any project.

            Each project's `score` field reflects the user's original attribute scores combined with the attribute weights above; it is not on the same [0, 100] scale as the priority you derive here, so don't try to reconcile the two numerically. Instead, use the attribute weights above together with each project's SubAgent Opinions to judge whether the subagent's rederived attribute profile still supports the user's original ranking, and explain your priority in those terms.

            Carefully structure your output as valid json:
            {
                \"order\": [
                    {
                        \"project_name\": \"project_a\",
                        \"priority\": 60,
                        \"justification\": \"justification_a\"
                    },
                    {
                        \"project_name\": \"project_b\",
                        \"priority\": 30,
                        \"justification\": \"justification_b\"
                    }
                ],
                \"notes\": \"important notes to pass up to the user, reflections on the process and prompts\"
            }
            ";

/// The opening of a project prompt, up to the lookback days.
pub const PROJECT_INTRO: &'static str = "You are an agent working on an assignment that synthesizes user scored attributes and commit history to recommend what the user should work on next. Your job is to look at this one project and synthesize information for an aggregation agent to use in order to recommend a priority list for what the user should work on next.
            History is either activity from past ";

/// What comes between the lookback days and the fallback count.
pub const PROJECT_WINDOW: &'static str = " days, or the last ";

/// What comes between the fallback count and the project.
pub const PROJECT_FALLBACK: &'static str = " commits before that window. If there is no history, then the project has not been started yet.

            Project: ";

/// What comes between the project and its history.
pub const PROJECT_HISTORY: &'static str = "
            History: ";

/// The rest of a project prompt.
pub const PROJECT_TAIL: &'static str = "

            Using the commit information, independently derive attribute scores (bounded [1, 10]). If it disagrees with the user score, justify your score using the semantic commit info.

            Structure your output as json:
            {
                \"opinions\": {
                    \"attribute_a\": {
                        \"reason\": \"opinion_a\",
                        \"score\": 4
                    },
                    \"attribute_c\": {
                        \"reason\": \"opinion_c\",
                        \"score\": 8
                    }
                },
                \"notes\": \"important notes to pass up to aggregator agent\"
            }
            ";

/// `x` in decimal, with a minus sign where it is negative.
pub open spec fn signed_decimal(x: int) -> Seq<char> {
    if x < 0 {
        seq!['-'] + decimal((-x) as nat)
    } else {
        decimal(x as nat)
    }
}

/// Appends `x` in decimal, with a minus sign where it is negative.
pub fn push_signed_decimal(s: &mut String, x: i64)
    ensures
        final(s)@ == old(s)@ + signed_decimal(x as int),
{
    if x < 0 {
        push_char(s, '-');
        let m: i128 = -(x as i128);
        push_decimal(s, m as u64);
        assert(s@ =~= old(s)@ + signed_decimal(x as int));
    } else {
        push_decimal(s, x as u64);
    }
}

/// The `Debug` rendering of an optional day count.
pub open spec fn days_text(d: Option<i64>) -> Seq<char> {
    match d {
        Some(x) => "Some("@ + signed_decimal(x as int) + ")"@,
        None => "None"@,
    }
}

/// The days line tells a known age from no history: `None` is written
/// `None`; `Some(d)`, zero included, is written `Some(` and `)` around `d`
/// in decimal, with a minus sign before a negative one.
pub proof fn lemma_days_text(d: i64)
    ensures
        days_text(None) == "None"@,
        days_text(Some(d)).len() >= 7,
        days_text(Some(d)).take(5) == "Some("@,
        days_text(Some(d)).last() == ')',
        d >= 0 ==> numeral(days_text(Some(d)).subrange(5, days_text(Some(d)).len() - 1), d as int),
        d < 0 ==> days_text(Some(d))[5] == '-' && numeral(
            days_text(Some(d)).subrange(6, days_text(Some(d)).len() - 1),
            -d,
        ),
{
    reveal_strlit("Some(");
    reveal_strlit(")");
    let t = days_text(Some(d));
    if d >= 0 {
        let x = decimal(d as nat);
        lemma_decimal_numeral(d as nat);
        assert(t == "Some("@ + x + ")"@);
        assert(t.take(5) =~= "Some("@);
        assert(t.subrange(5, t.len() - 1) =~= x);
    } else {
        let x = decimal((-d) as nat);
        lemma_decimal_numeral((-d) as nat);
        assert(t == "Some("@ + (seq!['-'] + x) + ")"@);
        assert(t.take(5) =~= "Some("@);
        assert(t.subrange(6, t.len() - 1) =~= x);
    }
}

/// What the priority prompt says of one project.
pub struct PromptSection {
    /// The project's `Debug` rendering.
    pub project: String,
    /// The whole days since the project's last commit.
    pub days_since_last_commit: Option<i64>,
    /// The `Debug` rendering of the model's opinions on the project.
    pub opinions: String,
    /// The `Debug` rendering of the model's notes on the project.
    pub notes: String,
}

/// The text of one section.
pub open spec fn section_text(s: PromptSection) -> Seq<char> {
    SECTION_PROJECT@ + s.project@ + SECTION_DAYS@ + days_text(s.days_since_last_commit) + SECTION_OPINIONS@
        + s.opinions@ + SECTION_NOTES@ + s.notes@ + SECTION_END@
}

/// The text of the first `n` sections.
pub open spec fn sections_text(ss: Seq<PromptSection>, n: nat) -> Seq<char>
    decreases n,
{
    if n == 0 {
        Seq::empty()
    } else {
        sections_text(ss, (n - 1) as nat) + section_text(ss[n - 1])
    }
}

/// The priority prompt: the task, the configuration, one section per
/// project in the order given, and the answer format, which names the number
/// of projects twice.
pub open spec fn priority_prompt_text(config: Seq<char>, ss: Seq<PromptSection>) -> Seq<char> {
    BUNDLE_INTRO@ + BUNDLE_WEIGHTS_HEAD@ + config + BUNDLE_WEIGHTS_TAIL@ + sections_text(ss, ss.len())
        + CLOSING_HEAD@ + decimal(ss.len()) + CLOSING_MIDDLE@ + decimal(ss.len()) + CLOSING_TAIL@
}

/// Appends the text of one section.
fn push_section(r: &mut String, s: &PromptSection)
    ensures
        final(r)@ == old(r)@ + section_text(*s),
{
    push_str(r, SECTION_PROJECT);
    push_str(r, s.project.as_str());
    push_str(r, SECTION_DAYS);
    match s.days_since_last_commit {
        Some(x) => {
            push_str(r, "Some(");
            push_signed_decimal(r, x);
            push_str(r, ")");
        },
        None => push_str(r, "None"),
    }
    push_str(r, SECTION_OPINIONS);
    push_str(r, s.opinions.as_str());
    push_str(r, SECTION_NOTES);
    push_str(r, s.notes.as_str());
    push_str(r, SECTION_END);
    assert(r@ =~= old(r)@ + section_text(*s));
}

/// The first `m` sections come first in the text of the first `n`.
proof fn lemma_sections_prefix(ss: Seq<PromptSection>, m: nat, n: nat) -> (rest: Seq<char>)
    requires
        m <= n <= ss.len(),
    ensures
        sections_text(ss, n) == sections_text(ss, m) + rest,
    decreases n,
{
    if m == n {
        assert(sections_text(ss, n) =~= sections_text(ss, m) + Seq::<char>::empty());
        Seq::<char>::empty()
    } else {
        let rest = lemma_sections_prefix(ss, m, (n - 1) as nat);
        assert(sections_text(ss, n) =~= sections_text(ss, m) + (rest + section_text(ss[n - 1])));
        rest + section_text(ss[n - 1])
    }
}

/// The priority prompt quotes the configuration, and every project's section
/// whole: the project, its days line, the opinions and the notes, each under
/// its label.
pub proof fn lemma_priority_prompt_sections(config: Seq<char>, ss: Seq<PromptSection>, k: int)
    requires
        0 <= k < ss.len(),
    ensures
        contains_text(priority_prompt_text(config, ss), "Attribute weights (higher = more important to the user):\n            "@ + config + "\n\n"@),
        contains_text(
            priority_prompt_text(config, ss),
            "\n                Project: "@ + ss[k].project@ + "\nDays since last commit: "@ + days_text(ss[k].days_since_last_commit)
                + "\nSubAgent Opinions: "@ + ss[k].opinions@ + "\nSubAgent Notes: "@ + ss[k].notes@ + "\n\n"@,
        ),
{
    let t = priority_prompt_text(config, ss);
    let n = ss.len();
    assert(SECTION_PROJECT@ == "\n                Project: "@);
    assert(SECTION_DAYS@ == "\nDays since last commit: "@);
    assert(SECTION_OPINIONS@ == "\nSubAgent Opinions: "@);
    assert(SECTION_NOTES@ == "\nSubAgent Notes: "@);
    assert(SECTION_END@ == "\n\n"@);
    assert(BUNDLE_WEIGHTS_HEAD@ == "Attribute weights (higher = more important to the user):\n            "@);
    assert(BUNDLE_WEIGHTS_TAIL@ == "\n\n"@);
    let w = BUNDLE_WEIGHTS_HEAD@ + config + BUNDLE_WEIGHTS_TAIL@;
    let after = sections_text(ss, n) + CLOSING_HEAD@ + decimal(n) + CLOSING_MIDDLE@ + decimal(n) + CLOSING_TAIL@;
    assert(t =~= BUNDLE_INTRO@ + w + after);
    lemma_contains_middle(BUNDLE_INTRO@, w, after);
    let sec = section_text(ss[k]);
    let rest = lemma_sections_prefix(ss, (k + 1) as nat, n);
    assert(sections_text(ss, (k + 1) as nat) == sections_text(ss, k as nat) + sec);
    let tail = CLOSING_HEAD@ + decimal(n) + CLOSING_MIDDLE@ + decimal(n) + CLOSING_TAIL@;
    let before = BUNDLE_INTRO@ + w + sections_text(ss, k as nat);
    assert(t =~= before + sec + (rest + tail));
    lemma_contains_middle(before, sec, rest + tail);
    assert(sec =~= "\n                Project: "@ + ss[k].project@ + "\nDays since last commit: "@ + days_text(ss[k].days_since_last_commit)
                + "\nSubAgent Opinions: "@ + ss[k].opinions@ + "\nSubAgent Notes: "@ + ss[k].notes@ + "\n\n"@);
}

/// The priority prompt names the number of projects twice: "There are
/// exactly n projects listed above" and "MUST include all n of them".
pub proof fn lemma_priority_prompt_count(config: Seq<char>, ss: Seq<PromptSection>)
    ensures
        contains_text(
            priority_prompt_text(config, ss),
            "There are exactly "@ + decimal(ss.len()) + " projects listed above. Your `order` array MUST include all "@
                + decimal(ss.len()) + " of them, each exactly once"@,
        ),
{
    assert(CLOSING_HEAD@ == "
            \nUsing all project information, independently derive a priority score for each project (bounded [0, 100]), where a higher score means the project should be worked on sooner. The gap between two projects' scores should reflect how close a call it is — close scores mean it's a toss-up, a large gap means one is clearly more urgent. List `order` sorted from highest score to lowest.

            There are exactly "@);
    reveal_strlit("
            \nUsing all project information, independently derive a priority score for each project (bounded [0, 100]), where a higher score means the project should be worked on sooner. The gap between two projects' scores should reflect how close a call it is — close scores mean it's a toss-up, a large gap means one is clearly more urgent. List `order` sorted from highest score to lowest.

            There are exactly ");
    assert(CLOSING_TAIL@ == " of them, each exactly once — do not omit, merge, or duplicate any project.

            Each project's `score` field reflects the user's original attribute scores combined with the attribute weights above; it is not on the same [0, 100] scale as the priority you derive here, so don't try to reconcile the two numerically. Instead, use the attribute weights above together with each project's SubAgent Opinions to judge whether the subagent's rederived attribute profile still supports the user's original ranking, and explain your priority in those terms.

            Carefully structure your output as valid json:
            {
                \"order\": [
                    {
                        \"project_name\": \"project_a\",
                        \"priority\": 60,
                        \"justification\": \"justification_a\"
                    },
                    {
                        \"project_name\": \"project_b\",
                        \"priority\": 30,
                        \"justification\": \"justification_b\"
                    }
                ],
                \"notes\": \"important notes to pass up to the user, reflections on the process and prompts\"
            }
            "@);
    reveal_strlit(" of them, each exactly once — do not omit, merge, or duplicate any project.

            Each project's `score` field reflects the user's original attribute scores combined with the attribute weights above; it is not on the same [0, 100] scale as the priority you derive here, so don't try to reconcile the two numerically. Instead, use the attribute weights above together with each project's SubAgent Opinions to judge whether the subagent's rederived attribute profile still supports the user's original ranking, and explain your priority in those terms.

            Carefully structure your output as valid json:
            {
                \"order\": [
                    {
                        \"project_name\": \"project_a\",
                        \"priority\": 60,
                        \"justification\": \"justification_a\"
                    },
                    {
                        \"project_name\": \"project_b\",
                        \"priority\": 30,
                        \"justification\": \"justification_b\"
                    }
                ],
                \"notes\": \"important notes to pass up to the user, reflections on the process and prompts\"
            }
            ");
    reveal_strlit("There are exactly ");
    reveal_strlit(" of them, each exactly once");
    let n = ss.len();
    let x = "There are exactly "@ + decimal(n) + CLOSING_MIDDLE@ + decimal(n) + " of them, each exactly once"@;
    assert(CLOSING_MIDDLE@ == " projects listed above. Your `order` array MUST include all "@);
    let pre = BUNDLE_INTRO@ + BUNDLE_WEIGHTS_HEAD@ + config + BUNDLE_WEIGHTS_TAIL@ + sections_text(ss, n)
        + CLOSING_HEAD@.take(407);
    let post = CLOSING_TAIL@.skip(27);
    assert(CLOSING_HEAD@ =~= CLOSING_HEAD@.take(407) + "There are exactly "@);
    assert(CLOSING_TAIL@ =~= " of them, each exactly once"@ + post);
    assert(priority_prompt_text(config, ss) =~= pre + x + post);
    lemma_contains_middle(pre, x, post);
}

/// The priority prompt gives the sections in the order of the projects: each
/// section is followed at once by the next one.
pub proof fn lemma_priority_prompt_order(config: Seq<char>, ss: Seq<PromptSection>, k: int)
    requires
        0 <= k,
        k + 1 < ss.len(),
    ensures
        contains_text(
            priority_prompt_text(config, ss),
            ("\n                Project: "@ + ss[k].project@ + "\nDays since last commit: "@ + days_text(ss[k].days_since_last_commit)
                + "\nSubAgent Opinions: "@ + ss[k].opinions@ + "\nSubAgent Notes: "@ + ss[k].notes@ + "\n\n"@)
                + ("\n                Project: "@ + ss[k + 1].project@ + "\nDays since last commit: "@ + days_text(
                ss[k + 1].days_since_last_commit,
            ) + "\nSubAgent Opinions: "@ + ss[k + 1].opinions@ + "\nSubAgent Notes: "@ + ss[k + 1].notes@ + "\n\n"@),
        ),
{
    let t = priority_prompt_text(config, ss);
    let n = ss.len();
    assert(SECTION_PROJECT@ == "\n                Project: "@);
    assert(SECTION_DAYS@ == "\nDays since last commit: "@);
    assert(SECTION_OPINIONS@ == "\nSubAgent Opinions: "@);
    assert(SECTION_NOTES@ == "\nSubAgent Notes: "@);
    assert(SECTION_END@ == "\n\n"@);
    let a = section_text(ss[k]);
    let b = section_text(ss[k + 1]);
    let rest = lemma_sections_prefix(ss, (k + 2) as nat, n);
    assert(sections_text(ss, (k + 2) as nat) == sections_text(ss, (k + 1) as nat) + b);
    assert(sections_text(ss, (k + 1) as nat) == sections_text(ss, k as nat) + a);
    let before = BUNDLE_INTRO@ + BUNDLE_WEIGHTS_HEAD@ + config + BUNDLE_WEIGHTS_TAIL@ + sections_text(ss, k as nat);
    let tail = CLOSING_HEAD@ + decimal(n) + CLOSING_MIDDLE@ + decimal(n) + CLOSING_TAIL@;
    assert(t =~= before + (a + b) + (rest + tail));
    lemma_contains_middle(before, a + b, rest + tail);
}

/// The priority prompt over the given projects.
pub fn priority_prompt(config: &str, sections: &Vec<PromptSection>) -> (r: String)
    ensures
        r@ == priority_prompt_text(config@, sections@),
{
    let mut r = String::new();
    push_str(&mut r, BUNDLE_INTRO);
    push_str(&mut r, BUNDLE_WEIGHTS_HEAD);
    push_str(&mut r, config);
    push_str(&mut r, BUNDLE_WEIGHTS_TAIL);
    let ghost head = r@;
    let n = sections.len();
    let mut i: usize = 0;
    while i < n
        invariant
            n == sections@.len(),
            i <= n,
            r@ == head + sections_text(sections@, i as nat),
        decreases n - i,
    {
        push_section(&mut r, &sections[i]);
        assert(r@ =~= head + sections_text(sections@, (i + 1) as nat));
        i = i + 1;
    }
    push_str(&mut r, CLOSING_HEAD);
    push_decimal(&mut r, n as u64);
    push_str(&mut r, CLOSING_MIDDLE);
    push_decimal(&mut r, n as u64);
    push_str(&mut r, CLOSING_TAIL);
    r
}

/// The prompt on one project: the task, the history window, the project and
/// its history, and the answer format.
pub open spec fn project_prompt_text(project: Seq<char>, history: Seq<char>) -> Seq<char> {
    PROJECT_INTRO@ + decimal(LOOKBACK_DAYS as nat) + PROJECT_WINDOW@ + decimal(FALLBACK_COMMIT_COUNT as nat)
        + PROJECT_FALLBACK@ + project + PROJECT_HISTORY@ + history + PROJECT_TAIL@
}

/// The prompt on a project states the history window (7 days, or else the
/// last 10 commits), quotes the project and then its history, and after the
/// history asks for scores in `[1, 10]` with a justification of any
/// disagreement, then for the JSON answer.
pub proof fn lemma_project_prompt_parts(project: Seq<char>, history: Seq<char>) -> (parts: (Seq<char>, Seq<char>))
    ensures
        project_prompt_text(project, history) == parts.0 + project + "\n            History: "@ + history + parts.1,
        contains_text(parts.0, "History is either activity from past 7 days, or the last 10 commits before that window."@),
        contains_text(
            parts.1,
            "Using the commit information, independently derive attribute scores (bounded [1, 10]). If it disagrees with the user score, justify your score using the semantic commit info."@,
        ),
        contains_text(parts.1, "Structure your output as json:"@),
{
    assert(PROJECT_INTRO@ == "You are an agent working on an assignment that synthesizes user scored attributes and commit history to recommend what the user should work on next. Your job is to look at this one project and synthesize information for an aggregation agent to use in order to recommend a priority list for what the user should work on next.
            History is either activity from past "@);
    reveal_strlit("You are an agent working on an assignment that synthesizes user scored attributes and commit history to recommend what the user should work on next. Your job is to look at this one project and synthesize information for an aggregation agent to use in order to recommend a priority list for what the user should work on next.
            History is either activity from past ");
    assert(PROJECT_WINDOW@ == " days, or the last "@);
    reveal_strlit(" days, or the last ");
    assert(PROJECT_FALLBACK@ == " commits before that window. If there is no history, then the project has not been started yet.

            Project: "@);
    reveal_strlit(" commits before that window. If there is no history, then the project has not been started yet.

            Project: ");
    assert(PROJECT_TAIL@ == "

            Using the commit information, independently derive attribute scores (bounded [1, 10]). If it disagrees with the user score, justify your score using the semantic commit info.

            Structure your output as json:
            {
                \"opinions\": {
                    \"attribute_a\": {
                        \"reason\": \"opinion_a\",
                        \"score\": 4
                    },
                    \"attribute_c\": {
                        \"reason\": \"opinion_c\",
                        \"score\": 8
                    }
                },
                \"notes\": \"important notes to pass up to aggregator agent\"
            }
            "@);
    reveal_strlit("

            Using the commit information, independently derive attribute scores (bounded [1, 10]). If it disagrees with the user score, justify your score using the semantic commit info.

            Structure your output as json:
            {
                \"opinions\": {
                    \"attribute_a\": {
                        \"reason\": \"opinion_a\",
                        \"score\": 4
                    },
                    \"attribute_c\": {
                        \"reason\": \"opinion_c\",
                        \"score\": 8
                    }
                },
                \"notes\": \"important notes to pass up to aggregator agent\"
            }
            ");
    reveal_strlit("7");
    reveal_strlit("10");
    reveal_strlit("History is either activity from past 7 days, or the last 10 commits before that window.");
    reveal_strlit("Using the commit information, independently derive attribute scores (bounded [1, 10]). If it disagrees with the user score, justify your score using the semantic commit info.");
    reveal_strlit("Structure your output as json:");
    lemma_decimal_numeral(7);
    lemma_decimal_numeral(10);
    assert(decimal(7) =~= "7"@);
    assert(decimal(1) =~= seq!['1']);
    assert(decimal(10) =~= decimal(1).push('0'));
    assert(decimal(10) =~= "10"@);
    let a = PROJECT_INTRO@ + decimal(LOOKBACK_DAYS as nat) + PROJECT_WINDOW@ + decimal(FALLBACK_COMMIT_COUNT as nat) + PROJECT_FALLBACK@;
    let c = PROJECT_TAIL@;
    assert(PROJECT_HISTORY@ == "\n            History: "@);
    assert(project_prompt_text(project, history) =~= a + project + "\n            History: "@ + history + c);
    let w = "History is either activity from past 7 days, or the last 10 commits before that window."@;
    assert(a.subrange(337, 337 + w.len() as int) =~= w);
    assert(occurs_at(a, w, 337));
    let u = "Using the commit information, independently derive attribute scores (bounded [1, 10]). If it disagrees with the user score, justify your score using the semantic commit info."@;
    assert(c.subrange(14, 14 + u.len() as int) =~= u);
    assert(occurs_at(c, u, 14));
    let j = "Structure your output as json:"@;
    assert(c.subrange(202, 202 + j.len() as int) =~= j);
    assert(occurs_at(c, j, 202));
    (a, c)
}

/// The prompt on one project, given the `Debug` renderings of the project
/// and of its history.
pub fn project_prompt(project: &str, history: &str) -> (r: String)
    ensures
        r@ == project_prompt_text(project@, history@),
{
    let mut r = String::new();
    push_str(&mut r, PROJECT_INTRO);
    push_decimal(&mut r, LOOKBACK_DAYS as u64);
    push_str(&mut r, PROJECT_WINDOW);
    push_decimal(&mut r, FALLBACK_COMMIT_COUNT as u64);
    push_str(&mut r, PROJECT_FALLBACK);
    push_str(&mut r, project);
    push_str(&mut r, PROJECT_HISTORY);
    push_str(&mut r, history);
    push_str(&mut r, PROJECT_TAIL);
    r
}

} // verus!
