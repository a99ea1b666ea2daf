//! Local associations with reminders that the caller keeps elsewhere.
use vstd::prelude::*;

use crate::clock::{new_id, now, utc_time_text, uuid_v4_text};
use crate::error::{invalid_v, not_found_v, AppError, ErrorV};
use crate::model::{Changes, ChangesV, Snapshot, SnapshotV, TaskV};
use crate::sorting::{key_views, keys_distinct, lemma_sorted_list, lists_sorted, sort_positions, sorted_list, usize_seq};
use crate::store::{exhausted, exhausted_v, has_reminder, has_task, lemma_index_of, lemma_reminder_index_of, reminder_index, task_index, unique_reminder_ids, Store, StoreV};
use crate::text::{is_whitespace, is_ws, lowercase, push_char, text_eq, to_chars, to_lowercase, trim, trim_text};
use crate::tree::no_keys;


verus! {

/// The local record of an external reminder; nothing is scheduled or sent.
#[derive(Debug, Clone, PartialEq)]
pub struct Reminder {
    pub id: String,
    pub task_id: String,
    pub external_id: String,
    /// RFC 3339 time with an explicit offset, as given (trimmed).
    pub scheduled_at: String,
    pub timezone: String,
    /// Trimmed, lower case; WeChat aliases become `wechat`.
    pub channel: String,
    /// `scheduled`, `fired`, `cancelled` or `unknown`.
    pub status: String,
    pub created_at: String,
    pub updated_at: String,
}

pub struct ReminderV {
    pub id: Seq<char>,
    pub task_id: Seq<char>,
    pub external_id: Seq<char>,
    pub scheduled_at: Seq<char>,
    pub timezone: Seq<char>,
    pub channel: Seq<char>,
    pub status: Seq<char>,
    pub created_at: Seq<char>,
    pub updated_at: Seq<char>,
}

impl View for Reminder {
    type V = ReminderV;

    open spec fn view(&self) -> ReminderV {
        ReminderV {
            id: self.id@,
            task_id: self.task_id@,
            external_id: self.external_id@,
            scheduled_at: self.scheduled_at@,
            timezone: self.timezone@,
            channel: self.channel@,
            status: self.status@,
            created_at: self.created_at@,
            updated_at: self.updated_at@,
        }
    }
}

impl Reminder {
    pub fn copy(&self) -> (r: Reminder)
        ensures
            r@ == self@,
    {
        Reminder {
            id: self.id.clone(),
            task_id: self.task_id.clone(),
            external_id: self.external_id.clone(),
            scheduled_at: self.scheduled_at.clone(),
            timezone: self.timezone.clone(),
            channel: self.channel.clone(),
            status: self.status.clone(),
            created_at: self.created_at.clone(),
            updated_at: self.updated_at.clone(),
        }
    }

    pub fn same(&self, o: &Reminder) -> (r: bool)
        ensures
            r == (self@ == o@),
    {
        self.id == o.id && self.task_id == o.task_id && self.external_id == o.external_id
            && self.scheduled_at == o.scheduled_at && self.timezone == o.timezone && self.channel
            == o.channel && self.status == o.status && self.created_at == o.created_at
            && self.updated_at == o.updated_at
    }
}

/// A new association, recorded after the caller created the external reminder.
#[derive(Debug, Clone, PartialEq)]
pub struct AddReminder {
    pub external_id: String,
    pub scheduled_at: String,
    pub timezone: String,
    pub channel: String,
    pub status: String,
}

/// A partial update; `None` keeps the field.
#[derive(Debug, Clone, Default, PartialEq)]
pub struct EditReminder {
    pub external_id: Option<String>,
    pub scheduled_at: Option<String>,
    pub timezone: Option<String>,
    pub channel: Option<String>,
    pub status: Option<String>,
}

#[derive(Debug, Clone, PartialEq)]
pub struct ReminderResult {
    pub reminder: Reminder,
    pub changed: bool,
}

/// Whether `chrono::DateTime::parse_from_rfc3339` accepts the text: an RFC 3339
/// date-time with `Z` or an explicit offset, and a valid calendar date and time.
pub uninterp spec fn rfc3339_valid(s: Seq<char>) -> bool;

#[verifier::external_body]
/// `chrono::DateTime::parse_from_rfc3339(s).is_ok()`; its result is named
/// `rfc3339_valid` of the text.
pub(crate) fn parses_rfc3339(s: &str) -> (r: bool)
    ensures
        r == rfc3339_valid(s@),
{
    chrono::DateTime::parse_from_rfc3339(s).is_ok()
}

pub open spec fn alias_char(c: char) -> bool {
    !is_ws(c) && c != '-' && c != '_'
}

/// A lower-case channel without white space, hyphens or underscores.
pub open spec fn alias_of(l: Seq<char>) -> Seq<char> {
    l.filter(|c: char| alias_char(c))
}

pub open spec fn wechat_alias(a: Seq<char>) -> bool {
    a == "wechat"@ || a == "weixin"@ || a == "wx"@ || a == "微信"@
}

/// The channel trimmed and in lower case; WeChat aliases become `wechat`.
pub open spec fn channel_norm(c: Seq<char>) -> Seq<char> {
    let l = lowercase(trim(c));
    if wechat_alias(alias_of(l)) {
        "wechat"@
    } else {
        l
    }
}

/// Trims and lower-cases a channel, and maps WeChat aliases to `wechat`.
pub fn normalize_channel(channel: &str) -> (r: String)
    ensures
        r@ == channel_norm(channel@),
{
    let trimmed = trim_text(channel);
    let lowered = to_lowercase(trimmed.as_str());
    let cs = to_chars(lowered.as_str());
    let mut alias = String::new();
    let mut i: usize = 0;
    let ghost p = |c: char| alias_char(c);
    while i < cs.len()
        invariant
            i <= cs@.len(),
            p == (|c: char| alias_char(c)),
            alias@ == cs@.take(i as int).filter(p),
        decreases cs.len() - i,
    {
        let c = cs[i];
        proof {
            assert(cs@.take(i + 1) =~= cs@.take(i as int).push(c));
            cs@.take(i as int).lemma_filter_push(c, p);
        }
        if !is_whitespace(c) && c != '-' && c != '_' {
            push_char(&mut alias, c);
        }
        i = i + 1;
    }
    assert(cs@.take(cs@.len() as int) =~= cs@);
    let a = alias.as_str();
    if text_eq(a, "wechat") || text_eq(a, "weixin") || text_eq(a, "wx") || text_eq(a, "微信") {
        "wechat".to_owned()
    } else {
        lowered
    }
}

/// The association with its text fields normalized as they are stored.
pub open spec fn normalized(r: ReminderV) -> ReminderV {
    ReminderV {
        external_id: trim(r.external_id),
        scheduled_at: trim(r.scheduled_at),
        timezone: trim(r.timezone),
        channel: channel_norm(r.channel),
        ..r
    }
}

pub open spec fn reminder_status_ok(s: Seq<char>) -> bool {
    s == "scheduled"@ || s == "fired"@ || s == "cancelled"@ || s == "unknown"@
}

pub open spec fn empty_ws_msg() -> Seq<char> {
    "Must not be empty or whitespace"@
}

pub open spec fn scheduled_msg() -> Seq<char> {
    "Must be an RFC 3339 timestamp with an explicit UTC offset"@
}

pub open spec fn status_msg() -> Seq<char> {
    "Must be scheduled, fired, cancelled, or unknown"@
}

/// The first refusal of normalized fields, given whether the time parsed.
pub open spec fn field_error(r: ReminderV, scheduled_ok: bool) -> Option<ErrorV> {
    if r.external_id.len() == 0 {
        Some(invalid_v("external_id"@, empty_ws_msg()))
    } else if r.timezone.len() == 0 {
        Some(invalid_v("timezone"@, empty_ws_msg()))
    } else if r.channel.len() == 0 {
        Some(invalid_v("channel"@, empty_ws_msg()))
    } else if !scheduled_ok {
        Some(invalid_v("scheduled_at"@, scheduled_msg()))
    } else if !reminder_status_ok(r.status) {
        Some(invalid_v("status"@, status_msg()))
    } else {
        None
    }
}

/// The first refusal of an association as given, if any.
pub open spec fn reminder_error(r: ReminderV) -> Option<ErrorV> {
    field_error(normalized(r), rfc3339_valid(trim(r.scheduled_at)))
}

/// Checks normalized fields, given whether the scheduled time parsed.
pub fn check_fields(r: &Reminder, scheduled_ok: bool) -> (res: Result<(), AppError>)
    ensures
        match field_error(r@, scheduled_ok) {
            Some(e) => res is Err && res->Err_0@ == e,
            None => res is Ok,
        },
{
    if r.external_id.as_str().unicode_len() == 0 {
        return Err(AppError::invalid("external_id", "Must not be empty or whitespace"));
    }
    if r.timezone.as_str().unicode_len() == 0 {
        return Err(AppError::invalid("timezone", "Must not be empty or whitespace"));
    }
    if r.channel.as_str().unicode_len() == 0 {
        return Err(AppError::invalid("channel", "Must not be empty or whitespace"));
    }
    if !scheduled_ok {
        return Err(AppError::invalid("scheduled_at", "Must be an RFC 3339 timestamp with an explicit UTC offset"));
    }
    let st = r.status.as_str();
    if !(text_eq(st, "scheduled") || text_eq(st, "fired") || text_eq(st, "cancelled") || text_eq(st, "unknown")) {
        return Err(AppError::invalid("status", "Must be scheduled, fired, cancelled, or unknown"));
    }
    Ok(())
}

/// Normalizes the text fields in place and checks them.
pub fn validate(reminder: &mut Reminder) -> (r: Result<(), AppError>)
    ensures
        final(reminder)@ == normalized(old(reminder)@),
        match reminder_error(old(reminder)@) {
            Some(e) => r is Err && r->Err_0@ == e,
            None => r is Ok,
        },
{
    reminder.external_id = trim_text(reminder.external_id.as_str());
    reminder.scheduled_at = trim_text(reminder.scheduled_at.as_str());
    reminder.timezone = trim_text(reminder.timezone.as_str());
    reminder.channel = normalize_channel(reminder.channel.as_str());
    let ok = parses_rfc3339(reminder.scheduled_at.as_str());
    check_fields(reminder, ok)
}

/// A work task refuses a `wechat` association.
pub open spec fn channel_forbidden(category: Seq<char>, r: ReminderV) -> bool {
    category == "work"@ && r.channel == "wechat"@
}

pub open spec fn forbidden_v(r: ReminderV) -> ErrorV {
    ErrorV::ChannelForbidden { task_id: r.task_id, channel: "wechat"@, reminder_ids: seq![r.id] }
}

/// Refuses a `wechat` association on a work task.
pub fn check_channel(category: &str, reminder: &Reminder) -> (r: Result<(), AppError>)
    ensures
        r is Err <==> channel_forbidden(category@, reminder@),
        r is Err ==> r->Err_0@ == forbidden_v(reminder@),
{
    if text_eq(category, "work") && text_eq(reminder.channel.as_str(), "wechat") {
        let mut ids: Vec<String> = Vec::new();
        ids.push(reminder.id.clone());
        assert(crate::text::seq_view(ids@) =~= seq![reminder@.id]);
        return Err(AppError::ChannelForbidden {
            task_id: reminder.task_id.clone(),
            channel: "wechat".to_owned(),
            reminder_ids: ids,
        });
    }
    Ok(())
}

pub open spec fn rem_ids(rs: Seq<ReminderV>) -> Seq<Seq<char>> {
    rs.map_values(|r: ReminderV| r.id)
}

pub open spec fn rem_created(rs: Seq<ReminderV>) -> Seq<Seq<char>> {
    rs.map_values(|r: ReminderV| r.created_at)
}

/// The `wechat` associations of a task, ordered by id.
pub open spec fn wechat_reminders(rs: Seq<ReminderV>, task_id: Seq<char>) -> Seq<int> {
    sorted_list(rem_ids(rs), no_keys(rs.len()), |j: int| rs[j].task_id == task_id && rs[j].channel == "wechat"@)
}

/// All associations of a task, ordered by creation time then id.
pub open spec fn task_reminders(rs: Seq<ReminderV>, task_id: Seq<char>) -> Seq<int> {
    sorted_list(rem_created(rs), rem_ids(rs), |j: int| rs[j].task_id == task_id)
}

pub open spec fn reminders_at(rs: Seq<ReminderV>, ps: Seq<int>) -> Seq<ReminderV> {
    ps.map_values(|j: int| rs[j])
}

/// `s` with the task `task_id` (if any) updated at `at`.
pub open spec fn touched(s: StoreV, task_id: Seq<char>, at: Seq<char>) -> StoreV {
    if has_task(s.tasks, task_id) {
        let i = task_index(s.tasks, task_id);
        s.with_task(i, TaskV { updated_at: at, ..s.tasks[i] })
    } else {
        s
    }
}

pub open spec fn duplicate_reminder_v() -> ErrorV {
    ErrorV::Database { busy: false, message: "UNIQUE constraint failed: reminders.id"@ }
}

pub open spec fn new_reminder(task_id: Seq<char>, input: AddReminder, id: Seq<char>) -> ReminderV {
    ReminderV {
        id,
        task_id,
        external_id: input.external_id@,
        scheduled_at: input.scheduled_at@,
        timezone: input.timezone@,
        channel: input.channel@,
        status: input.status@,
        created_at: Seq::empty(),
        updated_at: Seq::empty(),
    }
}

/// What recording a new association does.
pub open spec fn add_reminder_spec(s: StoreV, task_id: Seq<char>, input: AddReminder, id: Seq<char>, at: Seq<char>) -> (
    StoreV,
    Result<(ReminderV, bool), ErrorV>,
) {
    let r0 = new_reminder(task_id, input, id);
    let r1 = normalized(r0);
    if reminder_error(r0) is Some {
        (s, Err(reminder_error(r0)->0))
    } else if !has_task(s.tasks, task_id) {
        (s, Err(not_found_v("task"@, task_id)))
    } else if channel_forbidden(s.tasks[task_index(s.tasks, task_id)].category, r1) {
        (s, Err(forbidden_v(r1)))
    } else if has_reminder(s.reminders, id) {
        (s, Err(duplicate_reminder_v()))
    } else if !s.room(1) {
        (s, Err(exhausted_v()))
    } else {
        let r2 = ReminderV { created_at: at, updated_at: at, ..r1 };
        (
            touched(StoreV { reminders: s.reminders.push(r2), ..s }, task_id, at).recorded(
                task_id,
                "reminder_added"@,
                at,
                ChangesV { before: None, after: Some(SnapshotV::Reminder(r2)), body: None, cascade_from: None },
            ),
            Ok((r2, true)),
        )
    }
}

/// The association with the edit's fields set.
pub open spec fn edited_reminder(r: ReminderV, e: EditReminder) -> ReminderV {
    ReminderV {
        external_id: match e.external_id { Some(x) => x@, None => r.external_id },
        scheduled_at: match e.scheduled_at { Some(x) => x@, None => r.scheduled_at },
        timezone: match e.timezone { Some(x) => x@, None => r.timezone },
        channel: match e.channel { Some(x) => x@, None => r.channel },
        status: match e.status { Some(x) => x@, None => r.status },
        ..r
    }
}

/// What editing an association does.  An edit that normalizes to the
/// current record changes nothing.
pub open spec fn edit_reminder_spec(s: StoreV, id: Seq<char>, e: EditReminder, at: Seq<char>) -> (
    StoreV,
    Result<(ReminderV, bool), ErrorV>,
) {
    if !has_reminder(s.reminders, id) {
        (s, Err(not_found_v("reminder"@, id)))
    } else {
        let ri = reminder_index(s.reminders, id);
        let before = s.reminders[ri];
        let r0 = edited_reminder(before, e);
        let r1 = normalized(r0);
        if reminder_error(r0) is Some {
            (s, Err(reminder_error(r0)->0))
        } else if !has_task(s.tasks, r1.task_id) {
            (s, Err(not_found_v("task"@, r1.task_id)))
        } else if channel_forbidden(s.tasks[task_index(s.tasks, r1.task_id)].category, r1) {
            (s, Err(forbidden_v(r1)))
        } else if r1 == before {
            (s, Ok((before, false)))
        } else if !s.room(1) {
            (s, Err(exhausted_v()))
        } else {
            let r2 = ReminderV { updated_at: at, ..r1 };
            (
                touched(StoreV { reminders: s.reminders.update(ri, r2), ..s }, r1.task_id, at).recorded(
                    r1.task_id,
                    "reminder_updated"@,
                    at,
                    ChangesV {
                        before: Some(SnapshotV::Reminder(before)),
                        after: Some(SnapshotV::Reminder(r2)),
                        body: None,
                        cascade_from: None,
                    },
                ),
                Ok((r2, true)),
            )
        }
    }
}

/// What removing an association does; the history keeps the full record.
pub open spec fn remove_reminder_spec(s: StoreV, id: Seq<char>, at: Seq<char>) -> (StoreV, Result<ReminderV, ErrorV>) {
    if !has_reminder(s.reminders, id) {
        (s, Err(not_found_v("reminder"@, id)))
    } else if !s.room(1) {
        (s, Err(exhausted_v()))
    } else {
        let ri = reminder_index(s.reminders, id);
        let before = s.reminders[ri];
        (
            touched(StoreV { reminders: s.reminders.remove(ri), ..s }, before.task_id, at).recorded(
                before.task_id,
                "reminder_removed"@,
                at,
                ChangesV { before: Some(SnapshotV::Reminder(before)), after: None, body: None, cascade_from: None },
            ),
            Ok(before),
        )
    }
}

pub open spec fn reminder_result_view(r: Result<ReminderResult, AppError>) -> Result<(ReminderV, bool), ErrorV> {
    match r {
        Ok(x) => Ok((x.reminder@, x.changed)),
        Err(e) => Err(e@),
    }
}

pub open spec fn removed_view(r: Result<Reminder, AppError>) -> Result<ReminderV, ErrorV> {
    match r {
        Ok(x) => Ok(x@),
        Err(e) => Err(e@),
    }
}

pub open spec fn rems_view(v: Seq<Reminder>) -> Seq<ReminderV> {
    v.map_values(|r: Reminder| r@)
}

pub proof fn lemma_rem_keys_distinct(rs: Seq<ReminderV>, a: Seq<Seq<char>>, b: Seq<Seq<char>>, by_time: bool)
    requires
        unique_reminder_ids(rs),
        a.len() == rs.len(),
        b.len() == rs.len(),
        by_time ==> b == rem_ids(rs),
        !by_time ==> a == rem_ids(rs),
    ensures
        keys_distinct(a, b),
{
    assert forall|i: int, j: int| 0 <= i < a.len() && 0 <= j < a.len() && i != j implies !(#[trigger] a[i] == #[trigger] a[j] && b[i] == b[j]) by {
        assert(rs[i].id != rs[j].id);
        if by_time {
            assert(b[i] == rs[i].id && b[j] == rs[j].id);
        } else {
            assert(a[i] == rs[i].id && a[j] == rs[j].id);
        }
    }
}

impl Store {
    /// Keys of the associations: (creation time, id), or (id, nothing).
    fn reminder_keys(&self, by_time: bool) -> (r: (Vec<Vec<char>>, Vec<Vec<char>>))
        requires
            self@.wf(),
        ensures
            by_time ==> key_views(r.0@) == rem_created(self@.reminders) && key_views(r.1@) == rem_ids(self@.reminders),
            !by_time ==> key_views(r.0@) == rem_ids(self@.reminders) && key_views(r.1@) == no_keys(self@.reminders.len()),
            r.0@.len() == self@.reminders.len(),
            r.1@.len() == self@.reminders.len(),
            keys_distinct(key_views(r.0@), key_views(r.1@)),
    {
        let n = self.reminder_count();
        let ghost rs = self@.reminders;
        let mut k1: Vec<Vec<char>> = Vec::new();
        let mut k2: Vec<Vec<char>> = Vec::new();
        let mut i: usize = 0;
        while i < n
            invariant
                n == rs.len(),
                rs == self@.reminders,
                i <= n,
                k1@.len() == i,
                k2@.len() == i,
                forall|j: int| 0 <= j < i ==> (#[trigger] k1@[j])@ == (if by_time { rs[j].created_at } else { rs[j].id }),
                forall|j: int| 0 <= j < i ==> (#[trigger] k2@[j])@ == (if by_time { rs[j].id } else { Seq::<char>::empty() }),
            decreases n - i,
        {
            let r = self.reminder_at(i);
            if by_time {
                k1.push(to_chars(r.created_at.as_str()));
                k2.push(to_chars(r.id.as_str()));
            } else {
                k1.push(to_chars(r.id.as_str()));
                k2.push(Vec::new());
            }
            i = i + 1;
        }
        proof {
            if by_time {
                assert(key_views(k1@) =~= rem_created(rs));
                assert(key_views(k2@) =~= rem_ids(rs));
            } else {
                assert(key_views(k1@) =~= rem_ids(rs));
                assert(key_views(k2@) =~= no_keys(rs.len()));
            }
            lemma_rem_keys_distinct(rs, key_views(k1@), key_views(k2@), by_time);
        }
        (k1, k2)
    }

    /// Positions of the associations of `task_id`, all of them ordered by
    /// (creation time, id) or only `wechat` ones ordered by id.
    fn reminder_positions(&self, task_id: &str, wechat_only: bool) -> (r: Vec<usize>)
        requires
            self@.wf(),
        ensures
            wechat_only ==> usize_seq(r@) == wechat_reminders(self@.reminders, task_id@),
            !wechat_only ==> usize_seq(r@) == task_reminders(self@.reminders, task_id@),
            forall|k: int| 0 <= k < r@.len() ==> #[trigger] r@[k] < self@.reminders.len(),
    {
        let ghost rs = self@.reminders;
        let ghost p = if wechat_only {
            |j: int| rs[j].task_id == task_id@ && rs[j].channel == "wechat"@
        } else {
            |j: int| rs[j].task_id == task_id@
        };
        let n = self.reminder_count();
        let mut found: Vec<usize> = Vec::new();
        let mut d: usize = 0;
        while d < n
            invariant
                n == rs.len(),
                rs == self@.reminders,
                p == (if wechat_only {
                    |j: int| rs[j].task_id == task_id@ && rs[j].channel == "wechat"@
                } else {
                    |j: int| rs[j].task_id == task_id@
                }),
                d <= n,
                forall|k: int| 0 <= k < found@.len() ==> #[trigger] found@[k] < d,
                forall|k1: int, k2: int| 0 <= k1 < k2 < found@.len() ==> #[trigger] found@[k1] < #[trigger] found@[k2],
                forall|x: int| usize_seq(found@).contains(x) <==> (0 <= x < d && p(x)),
            decreases n - d,
        {
            let r = self.reminder_at(d);
            let hit = text_eq(r.task_id.as_str(), task_id) && (!wechat_only || text_eq(r.channel.as_str(), "wechat"));
            let ghost old_f = usize_seq(found@);
            if hit {
                found.push(d);
            }
            proof {
                if hit {
                    assert(usize_seq(found@) =~= old_f.push(d as int));
                }
                assert(hit == p(d as int));
                assert forall|x: int| usize_seq(found@).contains(x) <==> (0 <= x < d + 1 && p(x)) by {
                    if usize_seq(found@).contains(x) {
                        let w = choose|w: int| 0 <= w < usize_seq(found@).len() && usize_seq(found@)[w] == x;
                        if w < old_f.len() {
                            assert(old_f[w] == x);
                            assert(old_f.contains(x));
                            assert(found@[w] < d + 1);
                            assert(0 <= x < d && p(x));
                        }
                    }
                    if 0 <= x < d + 1 && p(x) {
                        if x < d {
                            assert(old_f.contains(x));
                            let w = choose|w: int| 0 <= w < old_f.len() && old_f[w] == x;
                            assert(usize_seq(found@)[w] == x);
                        } else {
                            assert(usize_seq(found@)[old_f.len() as int] == x);
                        }
                    }
                }
            }
            d = d + 1;
        }
        assert(found@.no_duplicates()) by {
            assert forall|i: int, j: int| 0 <= i < found@.len() && 0 <= j < found@.len() && i != j implies found@[i] != found@[j] by {
                if i < j {
                    assert(found@[i] < found@[j]);
                } else {
                    assert(found@[j] < found@[i]);
                }
            }
        }
        let (k1, k2) = self.reminder_keys(!wechat_only);
        let r = sort_positions(&found, &k1, &k2);
        proof {
            let s = usize_seq(r@);
            assert forall|k: int| 0 <= k < s.len() implies 0 <= #[trigger] s[k] < key_views(k1@).len() by {
                assert(r@[k] < k1@.len());
            }
            assert(lists_sorted(key_views(k1@), key_views(k2@), p, s));
            lemma_sorted_list(key_views(k1@), key_views(k2@), p, s);
        }
        r
    }

    /// The `wechat` associations of a task, ordered by id.
    pub fn wechat_positions(&self, task_id: &str) -> (r: Vec<usize>)
        requires
            self@.wf(),
        ensures
            usize_seq(r@) == wechat_reminders(self@.reminders, task_id@),
            forall|k: int| 0 <= k < r@.len() ==> #[trigger] r@[k] < self@.reminders.len(),
    {
        self.reminder_positions(task_id, true)
    }

    /// Copies of the associations at `ps`.
    fn reminders_at_positions(&self, ps: &Vec<usize>) -> (r: Vec<Reminder>)
        requires
            forall|k: int| 0 <= k < ps@.len() ==> #[trigger] ps@[k] < self@.reminders.len(),
        ensures
            rems_view(r@) == reminders_at(self@.reminders, usize_seq(ps@)),
    {
        let mut out: Vec<Reminder> = Vec::new();
        let mut k: usize = 0;
        while k < ps.len()
            invariant
                k <= ps@.len(),
                forall|q: int| 0 <= q < ps@.len() ==> #[trigger] ps@[q] < self@.reminders.len(),
                out@.len() == k,
                forall|q: int| 0 <= q < k ==> (#[trigger] out@[q])@ == self@.reminders[ps@[q] as int],
            decreases ps.len() - k,
        {
            out.push(self.reminder_at(ps[k]).copy());
            k = k + 1;
        }
        assert(rems_view(out@) =~= reminders_at(self@.reminders, usize_seq(ps@)));
        out
    }

    /// The associations of a task, ordered by creation time then id.
    pub fn task_reminder_list(&self, task_id: &str) -> (r: Vec<Reminder>)
        requires
            self@.wf(),
        ensures
            rems_view(r@) == reminders_at(self@.reminders, task_reminders(self@.reminders, task_id@)),
    {
        let ps = self.reminder_positions(task_id, false);
        self.reminders_at_positions(&ps)
    }

    /// Lists the associations of task `task_id`.
    pub fn list_reminders(&self, task_id: &str) -> (r: Result<Vec<Reminder>, AppError>)
        requires
            self@.wf(),
        ensures
            reminder_list_ok(r, self@, task_id@),
    {
        if self.find_task(task_id).is_none() {
            return Err(AppError::not_found("task", task_id));
        }
        Ok(self.task_reminder_list(task_id))
    }

    /// Sets the update time of task `task_id`, if it exists.
    fn touch_task(&mut self, task_id: &str, at: &str)
        requires
            old(self)@.wf(),
        ensures
            final(self)@.wf(),
            final(self)@ == touched(old(self)@, task_id@, at@),
    {
        if let Some(i) = self.find_task(task_id) {
            let mut t = self.task_at(i).copy();
            t.updated_at = at.to_owned();
            proof {
                lemma_index_of(self@.tasks, i as int);
            }
            self.set_task(i, t);
        }
    }

    /// Records an association with id `id` at time `at`.
    pub fn add_reminder_at(&mut self, task_id: &str, input: AddReminder, id: &str, at: &str) -> (r: Result<ReminderResult, AppError>)
        requires
            old(self)@.wf(),
        ensures
            final(self)@.wf(),
            (final(self)@, reminder_result_view(r)) == add_reminder_spec(old(self)@, task_id@, input, id@, at@),
    {
        let mut reminder = Reminder {
            id: id.to_owned(),
            task_id: task_id.to_owned(),
            external_id: input.external_id.clone(),
            scheduled_at: input.scheduled_at.clone(),
            timezone: input.timezone.clone(),
            channel: input.channel.clone(),
            status: input.status.clone(),
            created_at: String::new(),
            updated_at: String::new(),
        };
        assert(reminder@ == new_reminder(task_id@, input, id@));
        validate(&mut reminder)?;
        let i = match self.find_task(task_id) {
            Some(i) => i,
            None => {
                return Err(AppError::not_found("task", task_id));
            },
        };
        check_channel(self.task_at(i).category.as_str(), &reminder)?;
        if self.find_reminder(id).is_some() {
            return Err(AppError::Database {
                busy: false,
                message: "UNIQUE constraint failed: reminders.id".to_owned(),
            });
        }
        if !self.has_room(1) {
            return Err(exhausted());
        }
        reminder.created_at = at.to_owned();
        reminder.updated_at = at.to_owned();
        let result = reminder.copy();
        let snap = reminder.copy();
        self.push_reminder(reminder);
        self.touch_task(task_id, at);
        self.record(
            task_id,
            "reminder_added",
            at,
            Changes { before: None, after: Some(Snapshot::Reminder(snap)), body: None, cascade_from: None },
        );
        Ok(ReminderResult { reminder: result, changed: true })
    }

    /// Records an association with a fresh id at the current time.
    pub fn add_reminder(&mut self, task_id: &str, input: AddReminder) -> (r: Result<ReminderResult, AppError>)
        requires
            old(self)@.wf(),
        ensures
            final(self)@.wf(),
            exists|id: Seq<char>, at: Seq<char>|
                uuid_v4_text(id) && utc_time_text(at) && (final(self)@, reminder_result_view(r)) == add_reminder_spec(old(self)@, task_id@, input, id, at),
    {
        let id = new_id();
        let at = now();
        self.add_reminder_at(task_id, input, id.as_str(), at.as_str())
    }

    /// Edits association `id` at time `at`.
    pub fn edit_reminder_at(&mut self, id: &str, input: EditReminder, at: &str) -> (r: Result<ReminderResult, AppError>)
        requires
            old(self)@.wf(),
        ensures
            final(self)@.wf(),
            (final(self)@, reminder_result_view(r)) == edit_reminder_spec(old(self)@, id@, input, at@),
    {
        let ri = match self.find_reminder(id) {
            Some(ri) => ri,
            None => {
                return Err(AppError::not_found("reminder", id));
            },
        };
        let before = self.reminder_at(ri).copy();
        let mut reminder = before.copy();
        if let Some(v) = &input.external_id {
            reminder.external_id = v.clone();
        }
        if let Some(v) = &input.scheduled_at {
            reminder.scheduled_at = v.clone();
        }
        if let Some(v) = &input.timezone {
            reminder.timezone = v.clone();
        }
        if let Some(v) = &input.channel {
            reminder.channel = v.clone();
        }
        if let Some(v) = &input.status {
            reminder.status = v.clone();
        }
        assert(reminder@ == edited_reminder(before@, input));
        validate(&mut reminder)?;
        let ti = match self.find_task(reminder.task_id.as_str()) {
            Some(ti) => ti,
            None => {
                return Err(AppError::not_found("task", reminder.task_id.as_str()));
            },
        };
        check_channel(self.task_at(ti).category.as_str(), &reminder)?;
        if reminder.same(&before) {
            return Ok(ReminderResult { reminder: before, changed: false });
        }
        if !self.has_room(1) {
            return Err(exhausted());
        }
        reminder.updated_at = at.to_owned();
        let result = reminder.copy();
        let snap = reminder.copy();
        let task_id = reminder.task_id.clone();
        proof {
            lemma_reminder_index_of(self@.reminders, ri as int);
        }
        self.set_reminder(ri, reminder);
        self.touch_task(task_id.as_str(), at);
        self.record(
            task_id.as_str(),
            "reminder_updated",
            at,
            Changes {
                before: Some(Snapshot::Reminder(before)),
                after: Some(Snapshot::Reminder(snap)),
                body: None,
                cascade_from: None,
            },
        );
        Ok(ReminderResult { reminder: result, changed: true })
    }

    /// Edits an association at the current time.
    pub fn edit_reminder(&mut self, id: &str, input: EditReminder) -> (r: Result<ReminderResult, AppError>)
        requires
            old(self)@.wf(),
        ensures
            final(self)@.wf(),
            exists|at: Seq<char>| utc_time_text(at) && (final(self)@, reminder_result_view(r)) == edit_reminder_spec(old(self)@, id@, input, at),
    {
        let at = now();
        self.edit_reminder_at(id, input, at.as_str())
    }

    /// Removes association `id` at time `at`; the external reminder is untouched.
    pub fn remove_reminder_at(&mut self, id: &str, at: &str) -> (r: Result<Reminder, AppError>)
        requires
            old(self)@.wf(),
        ensures
            final(self)@.wf(),
            (final(self)@, removed_view(r)) == remove_reminder_spec(old(self)@, id@, at@),
    {
        let ri = match self.find_reminder(id) {
            Some(ri) => ri,
            None => {
                return Err(AppError::not_found("reminder", id));
            },
        };
        if !self.has_room(1) {
            return Err(exhausted());
        }
        let before = self.reminder_at(ri).copy();
        let snap = before.copy();
        self.remove_reminder_at_position(ri);
        self.touch_task(before.task_id.as_str(), at);
        self.record(
            before.task_id.as_str(),
            "reminder_removed",
            at,
            Changes { before: Some(Snapshot::Reminder(snap)), after: None, body: None, cascade_from: None },
        );
        Ok(before)
    }

    /// Removes an association at the current time.
    pub fn remove_reminder(&mut self, id: &str) -> (r: Result<Reminder, AppError>)
        requires
            old(self)@.wf(),
        ensures
            final(self)@.wf(),
            exists|at: Seq<char>| utc_time_text(at) && (final(self)@, removed_view(r)) == remove_reminder_spec(old(self)@, id@, at),
    {
        let at = now();
        self.remove_reminder_at(id, at.as_str())
    }
}

/// Every reminder association of the task with this id, in creation order;
/// or not found.
pub open spec fn reminder_list_ok(r: Result<Vec<Reminder>, AppError>, s: StoreV, task_id: Seq<char>) -> bool {
    match r {
        Ok(v) => has_task(s.tasks, task_id) && rems_view(v@) == reminders_at(
            s.reminders,
            task_reminders(s.reminders, task_id),
        ),
        Err(e) => !has_task(s.tasks, task_id) && e@ == not_found_v("task"@, task_id),
    }
}

} // verus!
