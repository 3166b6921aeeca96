//! The run dashboard's state: the items being worked on, their status, the
//! log, the selection and scroll positions, and the reducer that applies each
//! event of a run to that state.
use crate::text::{decimal, decimal_string, owned, push_str, str_eq};
use vstd::prelude::*;

verus! {

#[derive(Debug, Clone, Copy, PartialEq, Eq, Structural)]
pub enum DashboardKind {
    Translate,
    Annotate,
}

#[derive(Debug, Clone, Copy, PartialEq, Eq, Structural)]
pub enum DashboardLogTone {
    Info,
    Success,
    Warning,
    Error,
}

#[derive(Debug, Clone, Copy, PartialEq, Eq, Structural)]
pub enum DashboardItemStatus {
    Queued,
    Running,
    Succeeded,
    Failed,
    Skipped,
}

pub open spec fn item_status_label(s: DashboardItemStatus) -> Seq<char> {
    match s {
        DashboardItemStatus::Queued => "queued"@,
        DashboardItemStatus::Running => "running"@,
        DashboardItemStatus::Succeeded => "done"@,
        DashboardItemStatus::Failed => "failed"@,
        DashboardItemStatus::Skipped => "skipped"@,
    }
}

impl DashboardItemStatus {
    /// The word shown for the status.
    pub fn label(self) -> (r: &'static str)
        ensures
            r@ == item_status_label(self),
    {
        match self {
            Self::Queued => "queued",
            Self::Running => "running",
            Self::Succeeded => "done",
            Self::Failed => "failed",
            Self::Skipped => "skipped",
        }
    }
}

/// A labelled value shown in the header or summary.
#[derive(Debug, Clone, PartialEq, Eq)]
pub struct SummaryRow {
    pub label: String,
    pub value: String,
}

impl SummaryRow {
    /// A row with the given label and value.
    pub fn new(label: &str, value: &str) -> (r: Self)
        ensures
            r.label@ == label@,
            r.value@ == value@,
    {
        SummaryRow { label: owned(label), value: owned(value) }
    }
}

/// One unit of work shown in the dashboard.
#[derive(Debug, Clone, PartialEq, Eq)]
pub struct DashboardItem {
    pub id: String,
    pub title: String,
    pub subtitle: String,
    pub source_text: Option<String>,
    pub output_text: Option<String>,
    pub note_text: Option<String>,
    pub error_text: Option<String>,
    pub extra_rows: Vec<SummaryRow>,
    pub status: DashboardItemStatus,
}

impl DashboardItem {
    /// An item with the given identity and status and no detail yet.
    pub fn new(id: &str, title: &str, subtitle: &str, status: DashboardItemStatus) -> (r: Self)
        ensures
            r.id@ == id@,
            r.title@ == title@,
            r.subtitle@ == subtitle@,
            r.source_text is None,
            r.output_text is None,
            r.note_text is None,
            r.error_text is None,
            r.extra_rows@.len() == 0,
            r.status == status,
    {
        DashboardItem {
            id: owned(id),
            title: owned(title),
            subtitle: owned(subtitle),
            source_text: None,
            output_text: None,
            note_text: None,
            error_text: None,
            extra_rows: Vec::new(),
            status,
        }
    }
}

/// What a dashboard starts from.
#[derive(Debug, Clone, PartialEq, Eq)]
pub struct DashboardInit {
    pub kind: DashboardKind,
    pub title: String,
    pub metadata: Vec<SummaryRow>,
    pub summary_rows: Vec<SummaryRow>,
    pub items: Vec<DashboardItem>,
}

/// Something that happened during a run.
#[derive(Debug, Clone, PartialEq, Eq)]
pub enum DashboardEvent {
    Log { tone: DashboardLogTone, message: String },
    UpdateItem {
        id: String,
        status: Option<DashboardItemStatus>,
        subtitle: Option<String>,
        source_text: Option<String>,
        output_text: Option<String>,
        note_text: Option<String>,
        error_text: Option<String>,
        extra_rows: Option<Vec<SummaryRow>>,
    },
    SummaryRows { rows: Vec<SummaryRow> },
    Completed,
}

#[derive(Debug, Clone, Copy, PartialEq, Eq, Structural)]
pub enum FocusPane {
    Table,
    Detail,
    Log,
}

impl FocusPane {
    /// The pane that receives focus after this one: table, detail, log, and
    /// round again.
    pub fn next(self) -> (r: Self)
        ensures
            r == next_pane(self),
    {
        match self {
            Self::Table => Self::Detail,
            Self::Detail => Self::Log,
            Self::Log => Self::Table,
        }
    }
}

pub open spec fn next_pane(p: FocusPane) -> FocusPane {
    match p {
        FocusPane::Table => FocusPane::Detail,
        FocusPane::Detail => FocusPane::Log,
        FocusPane::Log => FocusPane::Table,
    }
}

/// How many items are in each status.
#[derive(Debug, Clone, Copy, PartialEq, Eq, Default, Structural)]
pub struct DashboardCounts {
    pub queued: usize,
    pub running: usize,
    pub succeeded: usize,
    pub failed: usize,
    pub skipped: usize,
}

/// The whole dashboard.
#[derive(Debug, Clone)]
pub struct DashboardState {
    pub kind: DashboardKind,
    pub title: String,
    pub metadata: Vec<SummaryRow>,
    pub summary_rows: Vec<SummaryRow>,
    pub items: Vec<DashboardItem>,
    pub logs: Vec<(DashboardLogTone, String)>,
    pub selected: usize,
    pub detail_scroll: u16,
    pub log_scroll: u16,
    pub focus: FocusPane,
    pub completed: bool,
}

/// The number of items in status `s`.
pub open spec fn count_status(items: Seq<DashboardItem>, s: DashboardItemStatus) -> nat
    decreases items.len(),
{
    if items.len() == 0 {
        0
    } else {
        count_status(items.drop_last(), s) + if items.last().status == s {
            1nat
        } else {
            0nat
        }
    }
}

/// The index of the last item whose id is `id`, if any.
pub open spec fn last_item_with_id(items: Seq<DashboardItem>, id: Seq<char>) -> Option<int>
    decreases items.len(),
{
    if items.len() == 0 {
        None
    } else if items.last().id@ == id {
        Some(items.len() - 1)
    } else {
        last_item_with_id(items.drop_last(), id)
    }
}

/// The index of the first row whose label is `label`, if any.
pub open spec fn first_row_with_label(rows: Seq<SummaryRow>, label: Seq<char>) -> Option<int>
    decreases rows.len(),
{
    if rows.len() == 0 {
        None
    } else if rows[0].label@ == label {
        Some(0)
    } else {
        match first_row_with_label(rows.drop_first(), label) {
            Some(i) => Some(i + 1),
            None => None,
        }
    }
}

/// An item once an update has been applied to it: each field the update
/// carries replaces the item's, the others stay.
pub open spec fn updated_item(
    item: DashboardItem,
    status: Option<DashboardItemStatus>,
    subtitle: Option<String>,
    source_text: Option<String>,
    output_text: Option<String>,
    note_text: Option<String>,
    error_text: Option<String>,
    extra_rows: Option<Vec<SummaryRow>>,
) -> DashboardItem {
    DashboardItem {
        id: item.id,
        title: item.title,
        subtitle: match subtitle {
            Some(s) => s,
            None => item.subtitle,
        },
        source_text: match source_text {
            Some(s) => Some(s),
            None => item.source_text,
        },
        output_text: match output_text {
            Some(s) => Some(s),
            None => item.output_text,
        },
        note_text: match note_text {
            Some(s) => Some(s),
            None => item.note_text,
        },
        error_text: match error_text {
            Some(s) => Some(s),
            None => item.error_text,
        },
        extra_rows: match extra_rows {
            Some(r) => r,
            None => item.extra_rows,
        },
        status: match status {
            Some(s) => s,
            None => item.status,
        },
    }
}

/// The items after an event: an update changes the last item with its id,
/// when there is one; any other event leaves the items alone.
pub open spec fn items_after(items: Seq<DashboardItem>, event: DashboardEvent) -> Seq<
    DashboardItem,
> {
    match event {
        DashboardEvent::UpdateItem {
            id,
            status,
            subtitle,
            source_text,
            output_text,
            note_text,
            error_text,
            extra_rows,
        } => match last_item_with_id(items, id@) {
            Some(i) => items.update(
                i,
                updated_item(
                    items[i],
                    status,
                    subtitle,
                    source_text,
                    output_text,
                    note_text,
                    error_text,
                    extra_rows,
                ),
            ),
            None => items,
        },
        _ => items,
    }
}

/// The log after an event: a log event appends its line.
pub open spec fn logs_after(logs: Seq<(DashboardLogTone, String)>, event: DashboardEvent) -> Seq<
    (DashboardLogTone, String),
> {
    match event {
        DashboardEvent::Log { tone, message } => logs.push((tone, message)),
        _ => logs,
    }
}

/// The selection after one step down: the next item, but never past the
/// last; nothing moves when there are no items.
pub open spec fn next_selection(selected: nat, len: nat) -> nat {
    if len == 0 {
        selected
    } else if selected + 1 < len {
        selected + 1
    } else {
        (len - 1) as nat
    }
}

/// The selection after `amount` steps down.
pub open spec fn forward_selection(selected: nat, len: nat, amount: nat) -> nat {
    if len == 0 || amount == 0 {
        selected
    } else if selected + amount < len {
        selected + amount
    } else {
        (len - 1) as nat
    }
}

/// The selection after `amount` steps up, stopping at the first item.
pub open spec fn backward_selection(selected: nat, len: nat, amount: nat) -> nat {
    if len == 0 || amount == 0 {
        selected
    } else if selected >= amount {
        (selected - amount) as nat
    } else {
        0
    }
}

pub open spec fn sat_add_u16(a: u16, b: u16) -> u16 {
    if a + b <= u16::MAX {
        (a + b) as u16
    } else {
        u16::MAX
    }
}

pub open spec fn sat_sub_u16(a: u16, b: u16) -> u16 {
    if a >= b {
        (a - b) as u16
    } else {
        0
    }
}

/// The text of the first summary row with the given label, if any.
pub open spec fn summary_lookup(rows: Seq<SummaryRow>, label: Seq<char>) -> Option<Seq<char>> {
    match first_row_with_label(rows, label) {
        Some(i) => Some(rows[i].value@),
        None => None,
    }
}

/// The skipped figure shown for a translate run: the "Skipped total" row,
/// else the "Skipped" row, else `0`.
pub open spec fn skipped_figure(rows: Seq<SummaryRow>) -> Seq<char> {
    match summary_lookup(rows, "Skipped total"@) {
        Some(v) => v,
        None => match summary_lookup(rows, "Skipped"@) {
            Some(v) => v,
            None => "0"@,
        },
    }
}

/// The one-line progress report of a run.
pub open spec fn progress_text(
    kind: DashboardKind,
    items: Seq<DashboardItem>,
    rows: Seq<SummaryRow>,
) -> Seq<char> {
    let s = count_status(items, DashboardItemStatus::Succeeded);
    let f = count_status(items, DashboardItemStatus::Failed);
    let k = count_status(items, DashboardItemStatus::Skipped);
    match kind {
        DashboardKind::Translate => "Progress: "@ + decimal(s + f) + "/"@ + decimal(items.len())
            + " translated="@ + decimal(s) + " skipped="@ + skipped_figure(rows) + " failed="@
            + decimal(f),
        DashboardKind::Annotate => "Annotate progress: "@ + decimal(s + f + k) + "/"@ + decimal(
            items.len(),
        ) + " processed generated="@ + decimal(s) + " skipped="@ + decimal(k),
    }
}

proof fn lemma_counts_bounded(items: Seq<DashboardItem>)
    ensures
        count_status(items, DashboardItemStatus::Queued) + count_status(
            items,
            DashboardItemStatus::Running,
        ) + count_status(items, DashboardItemStatus::Succeeded) + count_status(
            items,
            DashboardItemStatus::Failed,
        ) + count_status(items, DashboardItemStatus::Skipped) == items.len(),
    decreases items.len(),
{
    if items.len() > 0 {
        lemma_counts_bounded(items.drop_last());
    }
}

/// Every item is in exactly one status: the five counts add up to the number
/// of items.
pub proof fn law_counts_cover_items(state: DashboardState)
    ensures
        count_status(state.items@, DashboardItemStatus::Queued) + count_status(
            state.items@,
            DashboardItemStatus::Running,
        ) + count_status(state.items@, DashboardItemStatus::Succeeded) + count_status(
            state.items@,
            DashboardItemStatus::Failed,
        ) + count_status(state.items@, DashboardItemStatus::Skipped) == state.items@.len(),
{
    lemma_counts_bounded(state.items@);
}

proof fn lemma_last_item_in_range(items: Seq<DashboardItem>, id: Seq<char>)
    ensures
        last_item_with_id(items, id) matches Some(i) ==> 0 <= i < items.len() && items[i].id@
            == id,
    decreases items.len(),
{
    if items.len() > 0 && items.last().id@ != id {
        lemma_last_item_in_range(items.drop_last(), id);
    }
}

/// An event never adds or removes items, and never changes an item's id or
/// title: the dashboard tracks the same work from start to end.
pub proof fn law_events_keep_items(items: Seq<DashboardItem>, event: DashboardEvent)
    ensures
        items_after(items, event).len() == items.len(),
        forall|i: int|
            0 <= i < items.len() ==> (#[trigger] items_after(items, event)[i]).id == items[i].id
                && items_after(items, event)[i].title == items[i].title,
{
    if let DashboardEvent::UpdateItem { id, .. } = event {
        lemma_last_item_in_range(items, id@);
    }
}

/// Three presses of Tab bring the focus back where it was.
pub proof fn law_focus_cycles(p: FocusPane)
    ensures
        next_pane(next_pane(next_pane(p))) == p,
        next_pane(p) != p,
{
}

/// Moving down keeps the selection on an item, and moving up then down
/// again returns to it when it was not the first or the last.
pub proof fn law_selection_stays_on_items(selected: nat, len: nat, amount: nat)
    requires
        len > 0,
        selected < len,
    ensures
        forward_selection(selected, len, amount) < len,
        backward_selection(selected, len, amount) < len,
        amount <= selected && selected + amount < len ==> forward_selection(
            backward_selection(selected, len, amount),
            len,
            amount,
        ) == selected,
{
}

/// Scrolling a pane forward then back by the same amount restores it, unless
/// the forward scroll hit the end.
pub proof fn law_scroll_round_trip(offset: u16, amount: u16)
    requires
        offset + amount <= u16::MAX,
    ensures
        sat_sub_u16(sat_add_u16(offset, amount), amount) == offset,
{
}

impl DashboardState {
    /// A dashboard showing `init`, with the first item selected, nothing
    /// scrolled, the table focused and the run not yet completed.
    pub fn new(init: DashboardInit) -> (r: Self)
        ensures
            r.kind == init.kind,
            r.title == init.title,
            r.metadata == init.metadata,
            r.summary_rows == init.summary_rows,
            r.items == init.items,
            r.logs@.len() == 0,
            r.selected == 0,
            r.detail_scroll == 0,
            r.log_scroll == 0,
            r.focus == FocusPane::Table,
            !r.completed,
    {
        DashboardState {
            kind: init.kind,
            title: init.title,
            metadata: init.metadata,
            summary_rows: init.summary_rows,
            items: init.items,
            logs: Vec::new(),
            selected: 0,
            detail_scroll: 0,
            log_scroll: 0,
            focus: FocusPane::Table,
            completed: false,
        }
    }

    /// The position of the last item whose id is `id`, if any.
    fn find_item(&self, id: &str) -> (r: Option<usize>)
        ensures
            match r {
                Some(i) => last_item_with_id(self.items@, id@) == Some(i as int),
                None => last_item_with_id(self.items@, id@) is None,
            },
    {
        let mut j: usize = self.items.len();
        proof {
            assert(self.items@.take(j as int) =~= self.items@);
        }
        while j > 0
            invariant
                j <= self.items.len(),
                last_item_with_id(self.items@, id@) == last_item_with_id(
                    self.items@.take(j as int),
                    id@,
                ),
            decreases j,
        {
            proof {
                assert(self.items@.take(j as int).drop_last() =~= self.items@.take(j - 1));
            }
            if str_eq(self.items[j - 1].id.as_str(), id) {
                return Some(j - 1);
            }
            j = j - 1;
        }
        None
    }

    /// Applies one event of the run (see `items_after`, `logs_after`).
    pub fn apply(&mut self, event: DashboardEvent)
        ensures
            final(self).kind == old(self).kind,
            final(self).title == old(self).title,
            final(self).metadata == old(self).metadata,
            final(self).selected == old(self).selected,
            final(self).detail_scroll == old(self).detail_scroll,
            final(self).log_scroll == old(self).log_scroll,
            final(self).focus == old(self).focus,
            final(self).items@ == items_after(old(self).items@, event),
            final(self).logs@ == logs_after(old(self).logs@, event),
            final(self).summary_rows == (match event {
                DashboardEvent::SummaryRows { rows } => rows,
                _ => old(self).summary_rows,
            }),
            final(self).completed == (old(self).completed || event is Completed),
    {
        match event {
            DashboardEvent::Log { tone, message } => self.logs.push((tone, message)),
            DashboardEvent::UpdateItem {
                id,
                status,
                subtitle,
                source_text,
                output_text,
                note_text,
                error_text,
                extra_rows,
            } => {
                if let Some(index) = self.find_item(id.as_str()) {
                    proof {
                        lemma_last_item_in_range(self.items@, id@);
                    }
                    let item = &mut self.items[index];
                    if let Some(status) = status {
                        item.status = status;
                    }
                    if let Some(subtitle) = subtitle {
                        item.subtitle = subtitle;
                    }
                    if let Some(source_text) = source_text {
                        item.source_text = Some(source_text);
                    }
                    if let Some(output_text) = output_text {
                        item.output_text = Some(output_text);
                    }
                    if let Some(note_text) = note_text {
                        item.note_text = Some(note_text);
                    }
                    if let Some(error_text) = error_text {
                        item.error_text = Some(error_text);
                    }
                    if let Some(extra_rows) = extra_rows {
                        item.extra_rows = extra_rows;
                    }
                }
            },
            DashboardEvent::SummaryRows { rows } => self.summary_rows = rows,
            DashboardEvent::Completed => self.completed = true,
        }
    }

    /// How many items are in each status.
    pub fn counts(&self) -> (r: DashboardCounts)
        ensures
            r.queued == count_status(self.items@, DashboardItemStatus::Queued),
            r.running == count_status(self.items@, DashboardItemStatus::Running),
            r.succeeded == count_status(self.items@, DashboardItemStatus::Succeeded),
            r.failed == count_status(self.items@, DashboardItemStatus::Failed),
            r.skipped == count_status(self.items@, DashboardItemStatus::Skipped),
    {
        let mut counts = DashboardCounts { queued: 0, running: 0, succeeded: 0, failed: 0, skipped: 0 };
        let mut i: usize = 0;
        while i < self.items.len()
            invariant
                i <= self.items.len(),
                counts.queued == count_status(self.items@.take(i as int), DashboardItemStatus::Queued),
                counts.running == count_status(self.items@.take(i as int), DashboardItemStatus::Running),
                counts.succeeded == count_status(self.items@.take(i as int), DashboardItemStatus::Succeeded),
                counts.failed == count_status(self.items@.take(i as int), DashboardItemStatus::Failed),
                counts.skipped == count_status(self.items@.take(i as int), DashboardItemStatus::Skipped),
            decreases self.items.len() - i,
        {
            proof {
                assert(self.items@.take(i + 1).drop_last() =~= self.items@.take(i as int));
                lemma_counts_bounded(self.items@.take(i as int));
            }
            match self.items[i].status {
                DashboardItemStatus::Queued => counts.queued = counts.queued + 1,
                DashboardItemStatus::Running => counts.running = counts.running + 1,
                DashboardItemStatus::Succeeded => counts.succeeded = counts.succeeded + 1,
                DashboardItemStatus::Failed => counts.failed = counts.failed + 1,
                DashboardItemStatus::Skipped => counts.skipped = counts.skipped + 1,
            }
            i = i + 1;
        }
        proof {
            assert(self.items@.take(self.items.len() as int) =~= self.items@);
        }
        counts
    }

    /// The selected item, when the selection is on one.
    pub fn selected_item(&self) -> (r: Option<&DashboardItem>)
        ensures
            self.selected < self.items@.len() ==> r == Some(&self.items@[self.selected as int]),
            self.selected >= self.items@.len() ==> r is None,
    {
        if self.selected < self.items.len() {
            Some(&self.items[self.selected])
        } else {
            None
        }
    }

    /// Moves the selection one item down, never past the last, and resets
    /// the detail scroll; nothing happens without items.
    pub fn select_next(&mut self)
        requires
            old(self).items@.len() > 0 ==> old(self).selected < usize::MAX,
        ensures
            final(self).selected == next_selection(old(self).selected as nat, old(self).items@.len()),
            final(self).detail_scroll == if old(self).items@.len() == 0 {
                old(self).detail_scroll
            } else {
                0
            },
            final(self).items == old(self).items,
            final(self).log_scroll == old(self).log_scroll,
            final(self).focus == old(self).focus,
            final(self).logs == old(self).logs,
            final(self).summary_rows == old(self).summary_rows,
            final(self).completed == old(self).completed,
            final(self).kind == old(self).kind,
            final(self).title == old(self).title,
            final(self).metadata == old(self).metadata,
    {
        if self.items.len() == 0 {
            return;
        }
        let last = self.items.len() - 1;
        let next = self.selected + 1;
        self.selected = if next < last {
            next
        } else {
            last
        };
        self.detail_scroll = 0;
    }

    /// Moves the selection one item up, stopping at the first, and resets
    /// the detail scroll; nothing happens without items.
    pub fn select_previous(&mut self)
        ensures
            final(self).selected == backward_selection(old(self).selected as nat, old(self).items@.len(), 1),
            final(self).detail_scroll == if old(self).items@.len() == 0 {
                old(self).detail_scroll
            } else {
                0
            },
            final(self).items == old(self).items,
            final(self).log_scroll == old(self).log_scroll,
            final(self).focus == old(self).focus,
            final(self).logs == old(self).logs,
            final(self).summary_rows == old(self).summary_rows,
            final(self).completed == old(self).completed,
            final(self).kind == old(self).kind,
            final(self).title == old(self).title,
            final(self).metadata == old(self).metadata,
    {
        if self.items.len() == 0 {
            return;
        }
        self.selected = if self.selected >= 1 {
            self.selected - 1
        } else {
            0
        };
        self.detail_scroll = 0;
    }

    /// Goes to the start of the focused pane: the first item, or the top of
    /// the detail or log.
    pub fn jump_top(&mut self)
        ensures
            final(self).selected == if old(self).focus == FocusPane::Table {
                0
            } else {
                old(self).selected
            },
            final(self).detail_scroll == if old(self).focus == FocusPane::Detail {
                0
            } else {
                old(self).detail_scroll
            },
            final(self).log_scroll == if old(self).focus == FocusPane::Log {
                0
            } else {
                old(self).log_scroll
            },
            final(self).items == old(self).items,
            final(self).focus == old(self).focus,
            final(self).completed == old(self).completed,
    {
        match self.focus {
            FocusPane::Table => self.selected = 0,
            FocusPane::Detail => self.detail_scroll = 0,
            FocusPane::Log => self.log_scroll = 0,
        }
    }

    /// Goes to the end of the focused pane: the last item (or the first when
    /// there are none), or the bottom of the detail or log.
    pub fn jump_bottom(&mut self)
        ensures
            final(self).selected == if old(self).focus == FocusPane::Table {
                if old(self).items@.len() == 0 {
                    0
                } else {
                    (old(self).items@.len() - 1) as usize
                }
            } else {
                old(self).selected
            },
            final(self).detail_scroll == if old(self).focus == FocusPane::Detail {
                u16::MAX
            } else {
                old(self).detail_scroll
            },
            final(self).log_scroll == if old(self).focus == FocusPane::Log {
                u16::MAX
            } else {
                old(self).log_scroll
            },
            final(self).items == old(self).items,
            final(self).focus == old(self).focus,
            final(self).completed == old(self).completed,
    {
        match self.focus {
            FocusPane::Table => {
                self.selected = if self.items.len() == 0 {
                    0
                } else {
                    self.items.len() - 1
                };
            },
            FocusPane::Detail => self.detail_scroll = u16::MAX,
            FocusPane::Log => self.log_scroll = u16::MAX,
        }
    }

    /// Scrolls the focused pane forward by `amount`: the selection moves
    /// down item by item in the table, the detail or log offset grows,
    /// saturating.
    pub fn scroll_forward(&mut self, amount: u16)
        requires
            old(self).items@.len() > 0 && amount > 0 ==> old(self).selected < usize::MAX,
        ensures
            final(self).selected == if old(self).focus == FocusPane::Table {
                forward_selection(old(self).selected as nat, old(self).items@.len(), amount as nat)
            } else {
                old(self).selected as nat
            },
            final(self).detail_scroll == match old(self).focus {
                FocusPane::Table => if old(self).items@.len() > 0 && amount > 0 {
                    0
                } else {
                    old(self).detail_scroll
                },
                FocusPane::Detail => sat_add_u16(old(self).detail_scroll, amount),
                FocusPane::Log => old(self).detail_scroll,
            },
            final(self).log_scroll == if old(self).focus == FocusPane::Log {
                sat_add_u16(old(self).log_scroll, amount)
            } else {
                old(self).log_scroll
            },
            final(self).items == old(self).items,
            final(self).focus == old(self).focus,
            final(self).completed == old(self).completed,
    {
        match self.focus {
            FocusPane::Table => {
                let _n = self.items.len();
                let ghost sel0 = self.selected as nat;
                let ghost scroll0 = self.detail_scroll;
                let mut k: u16 = 0;
                while k < amount
                    invariant
                        k <= amount,
                        self.items == old(self).items,
                        self.focus == old(self).focus,
                        self.completed == old(self).completed,
                        self.log_scroll == old(self).log_scroll,
                        sel0 == old(self).selected as nat,
                        scroll0 == old(self).detail_scroll,
                        self.items@.len() > 0 && amount > 0 ==> sel0 < usize::MAX,
                        self.items@.len() <= usize::MAX,
                        self.selected as nat == forward_selection(sel0, self.items@.len(), k as nat),
                        self.items@.len() > 0 && k > 0 ==> self.selected < self.items@.len(),
                        self.detail_scroll == if self.items@.len() > 0 && k > 0 {
                            0
                        } else {
                            scroll0
                        },
                    decreases amount - k,
                {
                    proof {
                        if k == 0 {
                            assert(self.selected as nat == sel0);
                        }
                    }
                    self.select_next();
                    k = k + 1;
                }
            },
            FocusPane::Detail => {
                self.detail_scroll = self.detail_scroll.saturating_add(amount);
            },
            FocusPane::Log => {
                self.log_scroll = self.log_scroll.saturating_add(amount);
            },
        }
    }

    /// Scrolls the focused pane back by `amount`: the selection moves up
    /// item by item in the table, the detail or log offset shrinks, stopping
    /// at zero.
    pub fn scroll_backward(&mut self, amount: u16)
        ensures
            final(self).selected == if old(self).focus == FocusPane::Table {
                backward_selection(old(self).selected as nat, old(self).items@.len(), amount as nat)
            } else {
                old(self).selected as nat
            },
            final(self).detail_scroll == match old(self).focus {
                FocusPane::Table => if old(self).items@.len() > 0 && amount > 0 {
                    0
                } else {
                    old(self).detail_scroll
                },
                FocusPane::Detail => sat_sub_u16(old(self).detail_scroll, amount),
                FocusPane::Log => old(self).detail_scroll,
            },
            final(self).log_scroll == if old(self).focus == FocusPane::Log {
                sat_sub_u16(old(self).log_scroll, amount)
            } else {
                old(self).log_scroll
            },
            final(self).items == old(self).items,
            final(self).focus == old(self).focus,
            final(self).completed == old(self).completed,
    {
        match self.focus {
            FocusPane::Table => {
                let _n = self.items.len();
                let ghost sel0 = self.selected as nat;
                let ghost scroll0 = self.detail_scroll;
                let mut k: u16 = 0;
                while k < amount
                    invariant
                        k <= amount,
                        self.items == old(self).items,
                        self.focus == old(self).focus,
                        self.completed == old(self).completed,
                        self.log_scroll == old(self).log_scroll,
                        sel0 == old(self).selected as nat,
                        scroll0 == old(self).detail_scroll,
                        self.selected as nat == backward_selection(sel0, self.items@.len(), k as nat),
                        self.detail_scroll == if self.items@.len() > 0 && k > 0 {
                            0
                        } else {
                            scroll0
                        },
                    decreases amount - k,
                {
                    self.select_previous();
                    k = k + 1;
                }
            },
            FocusPane::Detail => {
                self.detail_scroll = self.detail_scroll.saturating_sub(amount);
            },
            FocusPane::Log => {
                self.log_scroll = self.log_scroll.saturating_sub(amount);
            },
        }
    }

    /// The value of the first summary row with the given label, if any.
    pub fn summary_value(&self, label: &str) -> (r: Option<&str>)
        ensures
            match r {
                Some(v) => summary_lookup(self.summary_rows@, label@) == Some(v@),
                None => summary_lookup(self.summary_rows@, label@) is None,
            },
    {
        let mut i: usize = 0;
        proof {
            assert(self.summary_rows@.subrange(0, self.summary_rows@.len() as int) =~= self.summary_rows@);
        }
        while i < self.summary_rows.len()
            invariant
                i <= self.summary_rows.len(),
                first_row_with_label(self.summary_rows@, label@) == match first_row_with_label(
                    self.summary_rows@.subrange(i as int, self.summary_rows@.len() as int),
                    label@,
                ) {
                    Some(k) => Some(k + i),
                    None => None::<int>,
                },
            decreases self.summary_rows.len() - i,
        {
            proof {
                let rest = self.summary_rows@.subrange(i as int, self.summary_rows@.len() as int);
                assert(rest.drop_first() =~= self.summary_rows@.subrange(
                    i + 1,
                    self.summary_rows@.len() as int,
                ));
            }
            if str_eq(self.summary_rows[i].label.as_str(), label) {
                return Some(self.summary_rows[i].value.as_str());
            }
            i = i + 1;
        }
        None
    }

    /// The one-line progress report that a plain terminal shows (see
    /// `progress_text`).
    pub fn progress_line(&self) -> (r: String)
        ensures
            r@ == progress_text(self.kind, self.items@, self.summary_rows@),
    {
        let counts = self.counts();
        proof {
            lemma_counts_bounded(self.items@);
            assert(counts.succeeded + counts.failed + counts.skipped <= self.items@.len());
        }
        let n = self.items.len();
        let finished = counts.succeeded + counts.failed;
        let processed = finished + counts.skipped;
        let mut line = String::new();
        match self.kind {
            DashboardKind::Translate => {
                let skipped = match self.summary_value("Skipped total") {
                    Some(v) => owned(v),
                    None => match self.summary_value("Skipped") {
                        Some(v) => owned(v),
                        None => owned("0"),
                    },
                };
                push_str(&mut line, "Progress: ");
                push_str(&mut line, decimal_string(finished).as_str());
                push_str(&mut line, "/");
                push_str(&mut line, decimal_string(self.items.len()).as_str());
                push_str(&mut line, " translated=");
                push_str(&mut line, decimal_string(counts.succeeded).as_str());
                push_str(&mut line, " skipped=");
                push_str(&mut line, skipped.as_str());
                push_str(&mut line, " failed=");
                push_str(&mut line, decimal_string(counts.failed).as_str());
            },
            DashboardKind::Annotate => {
                push_str(&mut line, "Annotate progress: ");
                push_str(
                    &mut line,
                    decimal_string(processed).as_str(),
                );
                push_str(&mut line, "/");
                push_str(&mut line, decimal_string(self.items.len()).as_str());
                push_str(&mut line, " processed generated=");
                push_str(&mut line, decimal_string(counts.succeeded).as_str());
                push_str(&mut line, " skipped=");
                push_str(&mut line, decimal_string(counts.skipped).as_str());
            },
        }
        proof {
            assert(line@ =~= progress_text(self.kind, self.items@, self.summary_rows@));
        }
        line
    }
}

} // verus!
