use crate::date::{
    cmp_option_date, is_calendar_option, is_valid_option, option_date_cmp, reverse, reversed, Date,
};
use crate::line::{has_long_date_offset, long_date_offset};
use crate::text::{
    bold_span,
    compare_text, escaped, has_scheme_mark, has_tag_mark, lemma_escaped_no_scheme_mark,
    lemma_escaped_no_tag_mark, lex_cmp, lemma_lex_cmp_from_refl,
    lemma_lex_cmp_from_trans, link_anchor, markup_escape,
};
use chrono::Datelike;
use core::cmp::Ordering;
use vstd::prelude::*;

verus! {

/// Priority value of a task without priority; `0` is `A`, the most urgent,
/// and `25` is `Z`.
pub const NO_PRIORITY: u8 = 26;

/// One to-do entry.
#[derive(Clone, Debug)]
pub struct Task {
    pub subject: String,
    pub finished: bool,
    /// `0` (`A`) to `25` (`Z`); a smaller value is more urgent, and
    /// `NO_PRIORITY` is less urgent than any letter.
    pub priority: u8,
    pub create_date: Option<Date>,
    pub due_date: Option<Date>,
    pub threshold_date: Option<Date>,
    pub finish_date: Option<Date>,
    pub projects: Vec<String>,
    pub contexts: Vec<String>,
    /// Assigned by the owning list; `0` while the task is in none.
    pub id: usize,
}

/// Order of due dates: a task with a due date comes before one without, and
/// an earlier date before a later one.
pub open spec fn due_cmp(a: Option<Date>, b: Option<Date>) -> Ordering {
    if a is None || b is None {
        reversed(option_date_cmp(a, b))
    } else {
        option_date_cmp(a, b)
    }
}

/// Display order of two tasks. Which dates decide is chosen by the first
/// task alone: a finished one compares finish dates, the later first; an
/// unfinished one compares due dates. Ties fall to priority, the more urgent
/// first, then to the subject in lexicographic order.
pub open spec fn task_cmp(a: &Task, b: &Task) -> Ordering {
    if a.finished && a.finish_date != b.finish_date {
        reversed(option_date_cmp(a.finish_date, b.finish_date))
    } else if !a.finished && a.due_date != b.due_date {
        due_cmp(a.due_date, b.due_date)
    } else if a.priority != b.priority {
        if a.priority < b.priority {
            Ordering::Less
        } else {
            Ordering::Greater
        }
    } else if a.subject@ != b.subject@ {
        lex_cmp(a.subject@, b.subject@)
    } else {
        Ordering::Equal
    }
}

/// Whether a todo.txt line marks its task finished: it starts with `x `.
pub open spec fn starts_finished(line: Seq<char>) -> bool {
    line.len() >= 2 && line[0] == 'x' && line[1] == ' '
}

/// What the link pass makes of a text.
pub uninterp spec fn linked_of(s: Seq<char>) -> Seq<char>;

/// What the tag pass makes of a text.
pub uninterp spec fn bolded_of(s: Seq<char>) -> Seq<char>;

/// The rendered subject of a task.
pub open spec fn markup_of(subject: Seq<char>) -> Seq<char> {
    bolded_of(linked_of(escaped(subject)))
}

/// Relies on `regex::Regex::replace_all` with `[\w]+://[^\s]+`: each match
/// is replaced by the anchor that `link_anchor` builds, and a text without a
/// match (without `://`, in particular) comes back unchanged.
#[verifier::external_body]
fn replace_links(s: &str) -> (r: String)
    ensures
        r@ == linked_of(s@),
        !has_scheme_mark(s@) ==> r@ == s@,
{
    let regex = regex::Regex::new(r"(?P<url>[\w]+://[^\s]+)").unwrap();
    regex.replace_all(s, |caps: &regex::Captures| link_anchor(&caps[1])).into_owned()
}

/// Relies on `regex::Regex::replace_all` with `(^|[\s])([\+@][\w\-\\]+)`:
/// each tag at the start or after whitespace becomes what `bold_span`
/// builds of the whitespace and the tag, and a text without a match comes
/// back unchanged: in particular one without `+` or `@` at its start or after
/// whitespace (which is ASCII whitespace or a non-ASCII character).
#[verifier::external_body]
fn bold_tags(s: &str) -> (r: String)
    ensures
        r@ == bolded_of(s@),
        !has_tag_mark(s@) ==> r@ == s@,
{
    let regex = regex::Regex::new(r"(?P<space>^|[\s])(?P<tag>[\+@][\w\-\\]+)").unwrap();
    regex.replace_all(s, |caps: &regex::Captures| bold_span(&caps["space"], &caps["tag"])).into_owned()
}

/// Relies on `todo_txt::task::Simple::from_str`, which reads every line
/// (its error type is `Infallible`): a line is finished when it starts with
/// `x `, a priority is a letter or none, and a finish date comes only with a
/// creation date. A relative `due:` or `t:` date is added to today's date,
/// which panics out of the range of dates, so lines with a long number there
/// are left out. The fields are copied over, dates as year, month and day.
#[verifier::external_body]
fn parse_line(s: &str) -> (r: Task)
    requires
        !long_date_offset(s@),
    ensures
        r.id == 0,
        r.finished == starts_finished(s@),
        r.priority <= NO_PRIORITY,
        r.finish_date is Some ==> r.create_date is Some,
{
    let t = <todo_txt::task::Simple as std::str::FromStr>::from_str(s).unwrap_or_default();
    let day = |d: Option<chrono::NaiveDate>| d.map(|d| Date { year: d.year(), month: d.month(), day: d.day() });
    Task {
        subject: t.subject, finished: t.finished, priority: u8::from(t.priority),
        create_date: day(t.create_date), due_date: day(t.due_date),
        threshold_date: day(t.threshold_date), finish_date: day(t.finish_date),
        projects: t.projects, contexts: t.contexts, id: 0,
    }
}

/// Whether every date of `t` names a day of the calendar and its priority
/// is a letter or none.
pub open spec fn writable(t: &Task) -> bool {
    &&& t.priority <= NO_PRIORITY
    &&& is_calendar_option(t.create_date)
    &&& is_calendar_option(t.due_date)
    &&& is_calendar_option(t.threshold_date)
    &&& is_calendar_option(t.finish_date)
}

/// Relies on the `Display` of `todo_txt::task::Simple`, which writes `x `
/// first for a finished task. Each date becomes a `chrono::NaiveDate`, which
/// exists for a calendar date; a priority past `NO_PRIORITY` would overflow
/// when written as a letter.
#[verifier::external_body]
fn format_line(t: &Task) -> (r: String)
    requires
        writable(t),
    ensures
        t.finished ==> starts_finished(r@),
{
    let day = |d: &Option<Date>| d.map(|d| chrono::NaiveDate::from_ymd_opt(d.year, d.month, d.day).unwrap());
    let simple = todo_txt::task::Simple {
        subject: t.subject.clone(), priority: todo_txt::Priority::from(t.priority),
        create_date: day(&t.create_date), finish_date: day(&t.finish_date), finished: t.finished,
        due_date: day(&t.due_date), threshold_date: day(&t.threshold_date),
        contexts: t.contexts.clone(), projects: t.projects.clone(), ..Default::default()
    };
    simple.to_string()
}

/// Copies a sequence of texts.
pub fn copy_texts(v: &Vec<String>) -> (r: Vec<String>)
    ensures
        r@ == v@,
{
    let mut r: Vec<String> = Vec::new();
    let mut i: usize = 0;
    while i < v.len()
        invariant
            i <= v@.len(),
            r@ == v@.subrange(0, i as int),
        decreases v@.len() - i,
    {
        r.push(v[i].clone());
        i = i + 1;
        assert(r@ =~= v@.subrange(0, i as int));
    }
    assert(v@.subrange(0, v@.len() as int) =~= v@);
    r
}

impl Task {
    /// An empty, unfinished task without priority, dates or tags.
    pub fn new() -> (r: Task)
        ensures
            r.subject@.len() == 0,
            !r.finished,
            r.priority == NO_PRIORITY,
            r.create_date is None,
            r.due_date is None,
            r.threshold_date is None,
            r.finish_date is None,
            r.projects@.len() == 0,
            r.contexts@.len() == 0,
            r.id == 0,
    {
        Task {
            subject: String::new(),
            finished: false,
            priority: NO_PRIORITY,
            create_date: None,
            due_date: None,
            threshold_date: None,
            finish_date: None,
            projects: Vec::new(),
            contexts: Vec::new(),
            id: 0,
        }
    }

    /// Whether two tasks hold the same values.
    pub open spec fn same_as(&self, other: &Task) -> bool {
        &&& self.subject@ == other.subject@
        &&& self.finished == other.finished
        &&& self.priority == other.priority
        &&& self.create_date == other.create_date
        &&& self.due_date == other.due_date
        &&& self.threshold_date == other.threshold_date
        &&& self.finish_date == other.finish_date
        &&& self.projects@ == other.projects@
        &&& self.contexts@ == other.contexts@
        &&& self.id == other.id
    }

    /// A task with the same values.
    pub fn duplicate(&self) -> (r: Task)
        ensures
            r.same_as(self),
    {
        Task {
            subject: self.subject.clone(),
            finished: self.finished,
            priority: self.priority,
            create_date: self.create_date,
            due_date: self.due_date,
            threshold_date: self.threshold_date,
            finish_date: self.finish_date,
            projects: copy_texts(&self.projects),
            contexts: copy_texts(&self.contexts),
            id: self.id,
        }
    }

    /// The subject as markup: escaped, with links and bold tags.
    pub fn markup_subject(&self) -> (r: String)
        ensures
            r@ == markup_of(self.subject@),
            !has_scheme_mark(self.subject@) && !has_tag_mark(self.subject@) ==> r@ == escaped(
                self.subject@,
            ),
    {
        proof {
            if !has_scheme_mark(self.subject@) && !has_tag_mark(self.subject@) {
                lemma_escaped_no_scheme_mark(self.subject@);
                lemma_escaped_no_tag_mark(self.subject@);
            }
        }
        let escaped = Task::markup_escape(self.subject.as_str());
        let linked = replace_links(escaped.as_str());
        bold_tags(linked.as_str())
    }

    /// Escapes `& < > ' "` in `text`.
    pub fn markup_escape(text: &str) -> (r: String)
        ensures
            r@ == escaped(text@),
    {
        markup_escape(text)
    }

    /// The task as a todo.txt line; none where a date is not a day of the
    /// calendar or the priority is not a letter or none.
    pub fn to_line(&self) -> (r: Option<String>)
        ensures
            r is Some <==> writable(self),
            r matches Some(l) ==> (self.finished ==> starts_finished(l@)),
    {
        if self.priority <= NO_PRIORITY && is_valid_option(&self.create_date) && is_valid_option(
            &self.due_date,
        ) && is_valid_option(&self.threshold_date) && is_valid_option(&self.finish_date) {
            Some(format_line(self))
        } else {
            None
        }
    }

    /// Display order of `self` and `other`.
    pub fn cmp(&self, other: &Task) -> (r: Ordering)
        ensures
            r == task_cmp(self, other),
    {
        if self.finished {
            let o = cmp_option_date(&self.finish_date, &other.finish_date);
            if !matches!(o, Ordering::Equal) {
                return reverse(o);
            }
        } else {
            let o = cmp_option_date(&self.due_date, &other.due_date);
            if !matches!(o, Ordering::Equal) {
                if self.due_date.is_none() || other.due_date.is_none() {
                    return reverse(o);
                } else {
                    return o;
                }
            }
        }
        if self.priority != other.priority {
            if self.priority < other.priority {
                return Ordering::Less;
            } else {
                return Ordering::Greater;
            }
        }
        proof {
            lemma_lex_cmp_from_refl(self.subject@, 0);
        }
        compare_text(self.subject.as_str(), other.subject.as_str())
    }
}

/// Display order is reflexive: every task compares equal to itself.
pub proof fn lemma_order_reflexive(a: &Task)
    ensures
        task_cmp(a, a) == Ordering::Equal,
{
}

/// Display order is transitive among tasks that are all finished or all
/// unfinished.
pub proof fn lemma_order_transitive(a: &Task, b: &Task, c: &Task)
    requires
        a.finished == b.finished,
        b.finished == c.finished,
        task_cmp(a, b) == Ordering::Less,
        task_cmp(b, c) == Ordering::Less,
    ensures
        task_cmp(a, c) == Ordering::Less,
{
    lemma_lex_cmp_from_refl(a.subject@, 0);
    if lex_cmp(a.subject@, b.subject@) == Ordering::Less && lex_cmp(b.subject@, c.subject@)
        == Ordering::Less {
        lemma_lex_cmp_from_trans(a.subject@, b.subject@, c.subject@, 0);
    }
}

impl std::str::FromStr for Task {
    type Err = ();

    /// Reads a task from a todo.txt line; it is in no list yet. A line with
    /// a `due:` or `t:` number of six digits or more is refused.
    fn from_str(s: &str) -> (r: Result<Task, ()>)
        ensures
            r is Ok <==> !long_date_offset(s@),
            r matches Ok(t) ==> t.id == 0 && t.finished == starts_finished(s@) && t.priority
                <= NO_PRIORITY && (t.finish_date is Some ==> t.create_date is Some),
    {
        if has_long_date_offset(s) {
            Err(())
        } else {
            Ok(parse_line(s))
        }
    }
}

} // verus!
