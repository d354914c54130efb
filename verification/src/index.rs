//! The checkpoint index: one row per checkpoint, in the order they were
//! taken, with the sessions and turns that caused them.
//!
//! The `published` flag records whether an authority commit covers a
//! checkpoint: unpublished generations are invisible to garbage collection.
use vstd::prelude::*;
use crate::digest::{generation_hex, from_digest_bytes, hex_of, GenerationId, DIGEST_BYTES};
use crate::text::{begins, chars_of, copy_opt, fit, fitting, occurs_here, opt_is, opt_text, text_eq};

verus! {

/// Why a checkpoint exists.
#[derive(Clone, Copy, Debug, PartialEq, Eq, Structural)]
pub enum CheckpointKind {
    Baseline,
    Pre,
    Post,
    Manual,
    PreRewind,
    Recovered,
    Failed,
    Noop,
}

/// The name of a kind in the index and on the wire.
pub open spec fn kind_name(kind: CheckpointKind) -> Seq<char> {
    match kind {
        CheckpointKind::Baseline => "baseline"@,
        CheckpointKind::Pre => "pre"@,
        CheckpointKind::Post => "post"@,
        CheckpointKind::Manual => "manual"@,
        CheckpointKind::PreRewind => "pre_rewind"@,
        CheckpointKind::Recovered => "recovered"@,
        CheckpointKind::Failed => "failed"@,
        CheckpointKind::Noop => "noop"@,
    }
}

impl CheckpointKind {
    /// The name of this kind.
    pub fn as_str(self) -> (r: &'static str)
        ensures
            r@ == kind_name(self),
    {
        match self {
            CheckpointKind::Baseline => "baseline",
            CheckpointKind::Pre => "pre",
            CheckpointKind::Post => "post",
            CheckpointKind::Manual => "manual",
            CheckpointKind::PreRewind => "pre_rewind",
            CheckpointKind::Recovered => "recovered",
            CheckpointKind::Failed => "failed",
            CheckpointKind::Noop => "noop",
        }
    }

    /// The kind of the given name; the error is the message for a name that
    /// is none.
    pub fn parse(text: &str) -> (r: Result<CheckpointKind, String>)
        ensures
            match r {
                Ok(kind) => text@ == kind_name(kind),
                Err(message) => {
                    &&& forall|kind: CheckpointKind| text@ != #[trigger] kind_name(kind)
                    &&& message@ == "unknown checkpoint kind "@ + text@
                },
            },
    {
        if text_eq(text, "baseline") {
            Ok(CheckpointKind::Baseline)
        } else if text_eq(text, "pre") {
            Ok(CheckpointKind::Pre)
        } else if text_eq(text, "post") {
            Ok(CheckpointKind::Post)
        } else if text_eq(text, "manual") {
            Ok(CheckpointKind::Manual)
        } else if text_eq(text, "pre_rewind") {
            Ok(CheckpointKind::PreRewind)
        } else if text_eq(text, "recovered") {
            Ok(CheckpointKind::Recovered)
        } else if text_eq(text, "failed") {
            Ok(CheckpointKind::Failed)
        } else if text_eq(text, "noop") {
            Ok(CheckpointKind::Noop)
        } else {
            let mut message = "unknown checkpoint kind ".to_owned();
            message.append(text);
            Err(message)
        }
    }
}

/// No two kinds share a name, so a name read back gives the kind written.
pub proof fn law_kind_names_differ(a: CheckpointKind, b: CheckpointKind)
    ensures
        kind_name(a) == kind_name(b) <==> a == b,
{
    reveal_strlit("baseline");
    reveal_strlit("pre");
    reveal_strlit("post");
    reveal_strlit("manual");
    reveal_strlit("pre_rewind");
    reveal_strlit("recovered");
    reveal_strlit("failed");
    reveal_strlit("noop");
    if a != b {
        assert(kind_name(a).len() != kind_name(b).len() || kind_name(a)[0] != kind_name(b)[0]);
    }
}

/// Attribution attached to a new checkpoint.
#[derive(Debug, PartialEq, Eq)]
pub struct Attribution {
    pub session_id: Option<String>,
    pub tool_call_id: Option<String>,
    pub tool_name: Option<String>,
    pub label: Option<String>,
    /// The turn, where the caller knows it; otherwise the session's current
    /// turn is used.
    pub turn: Option<i64>,
    /// The checkpoint a rewind was headed for.
    pub rewind_target: Option<i64>,
}

impl Default for Attribution {
    fn default() -> (r: Self)
        ensures
            r == no_attribution(),
    {
        Attribution {
            session_id: None,
            tool_call_id: None,
            tool_name: None,
            label: None,
            turn: None,
            rewind_target: None,
        }
    }
}

/// Attribution that says nothing.
pub open spec fn no_attribution() -> Attribution {
    Attribution {
        session_id: None,
        tool_call_id: None,
        tool_name: None,
        label: None,
        turn: None,
        rewind_target: None,
    }
}

impl Attribution {
    /// Attribution that holds a label alone.
    pub fn labelled(label: String) -> (r: Attribution)
        ensures
            r == (Attribution { label: Some(label), ..no_attribution() }),
    {
        Attribution {
            session_id: None,
            tool_call_id: None,
            tool_name: None,
            label: Some(label),
            turn: None,
            rewind_target: None,
        }
    }
}

/// One checkpoint row.
#[derive(Debug, PartialEq, Eq)]
pub struct CheckpointRow {
    pub id: i64,
    pub generation: GenerationId,
    pub created_at: i64,
    pub kind: CheckpointKind,
    pub published: bool,
    pub session_id: Option<String>,
    pub tool_call_id: Option<String>,
    pub tool_name: Option<String>,
    pub label: Option<String>,
    pub error: Option<String>,
    pub turn: Option<i64>,
    pub rewind_target: Option<i64>,
}

impl CheckpointRow {
    /// Whether this row's generation is a state a rewind may restore. Failed
    /// rows carry the generation from before the failed capture: restoring one
    /// would claim a state the row does not represent.
    pub fn is_restorable(&self) -> (r: bool)
        ensures
            r == (self.kind != CheckpointKind::Failed),
    {
        self.kind != CheckpointKind::Failed
    }
}

impl Clone for CheckpointRow {
    fn clone(&self) -> (r: CheckpointRow)
        ensures
            r == *self,
    {
        CheckpointRow {
            id: self.id,
            generation: self.generation,
            created_at: self.created_at,
            kind: self.kind,
            published: self.published,
            session_id: copy_opt(&self.session_id),
            tool_call_id: copy_opt(&self.tool_call_id),
            tool_name: copy_opt(&self.tool_name),
            label: copy_opt(&self.label),
            error: copy_opt(&self.error),
            turn: self.turn,
            rewind_target: self.rewind_target,
        }
    }
}

impl Clone for Attribution {
    fn clone(&self) -> (r: Attribution)
        ensures
            r == *self,
    {
        Attribution {
            session_id: copy_opt(&self.session_id),
            tool_call_id: copy_opt(&self.tool_call_id),
            tool_name: copy_opt(&self.tool_name),
            label: copy_opt(&self.label),
            turn: self.turn,
            rewind_target: self.rewind_target,
        }
    }
}

/// One session that the index knows.
#[derive(Debug, PartialEq, Eq)]
pub struct SessionRow {
    pub session_id: String,
    pub host: Option<String>,
    pub started_at: i64,
    pub ended_at: Option<i64>,
}

/// One prompt of a session, numbered from one within it.
#[derive(Debug, PartialEq, Eq)]
pub struct TurnRow {
    pub session_id: String,
    pub turn: i64,
    pub started_at: i64,
    pub prompt: String,
}

impl Clone for SessionRow {
    fn clone(&self) -> (r: SessionRow)
        ensures
            r == *self,
    {
        SessionRow {
            session_id: self.session_id.clone(),
            host: copy_opt(&self.host),
            started_at: self.started_at,
            ended_at: self.ended_at,
        }
    }
}

impl Clone for TurnRow {
    fn clone(&self) -> (r: TurnRow)
        ensures
            r == *self,
    {
        TurnRow {
            session_id: self.session_id.clone(),
            turn: self.turn,
            started_at: self.started_at,
            prompt: self.prompt.clone(),
        }
    }
}

/// Which kinds of row a query looks at.
#[derive(Clone, Copy, Debug, PartialEq, Eq, Structural)]
pub enum Kinds {
    /// Every row.
    Any,
    /// Rows whose generation is a tree state.
    Restorable,
    /// Real snapshots: no bookkeeping rows.
    Targets,
    /// Safety rows of rewinds whose target is known.
    Rewinds,
}

/// Whether a row is of the kinds asked for.
pub open spec fn of_kind(kinds: Kinds, row: CheckpointRow) -> bool {
    match kinds {
        Kinds::Any => true,
        Kinds::Restorable => row.kind != CheckpointKind::Failed,
        Kinds::Targets => row.kind == CheckpointKind::Baseline || row.kind == CheckpointKind::Pre
            || row.kind == CheckpointKind::Post || row.kind == CheckpointKind::Manual,
        Kinds::Rewinds => row.kind == CheckpointKind::PreRewind && row.rewind_target is Some,
    }
}

/// What a query asks of a row; an absent part asks nothing.
pub struct Query<'a> {
    pub kinds: Kinds,
    pub session: Option<&'a str>,
    pub turn: Option<i64>,
    /// Ids at or above this one.
    pub from: Option<i64>,
    /// Ids below this one.
    pub below: Option<i64>,
}

/// The parts of a query as plain values.
pub struct Asked {
    pub kinds: Kinds,
    pub session: Option<Seq<char>>,
    pub turn: Option<int>,
    pub from: Option<int>,
    pub below: Option<int>,
}

/// A query for rows of the given kinds and nothing else.
pub open spec fn ask(kinds: Kinds) -> Asked {
    Asked { kinds, session: None, turn: None, from: None, below: None }
}

impl<'a> View for Query<'a> {
    type V = Asked;

    open spec fn view(&self) -> Asked {
        Asked {
            kinds: self.kinds,
            session: crate::text::opt_str(self.session),
            turn: match self.turn {
                Some(t) => Some(t as int),
                None => None,
            },
            from: match self.from {
                Some(t) => Some(t as int),
                None => None,
            },
            below: match self.below {
                Some(t) => Some(t as int),
                None => None,
            },
        }
    }
}

/// Whether a row answers a query.
pub open spec fn admits(q: Asked, row: CheckpointRow) -> bool {
    &&& of_kind(q.kinds, row)
    &&& q.session is Some ==> opt_text(row.session_id) == q.session
    &&& q.turn matches Some(t) ==> row.turn is Some && row.turn->0 == t
    &&& q.from matches Some(t) ==> t <= row.id
    &&& q.below matches Some(t) ==> row.id < t
}

impl<'a> Query<'a> {
    /// A query for rows of the given kinds.
    pub fn of(kinds: Kinds) -> (r: Query<'a>)
        ensures
            r@ == ask(kinds),
    {
        Query { kinds, session: None, turn: None, from: None, below: None }
    }

    /// Whether a row answers this query.
    fn check(&self, row: &CheckpointRow) -> (r: bool)
        ensures
            r == admits(self@, *row),
    {
        let kind_fits = match self.kinds {
            Kinds::Any => true,
            Kinds::Restorable => row.kind != CheckpointKind::Failed,
            Kinds::Targets => row.kind == CheckpointKind::Baseline || row.kind
                == CheckpointKind::Pre || row.kind == CheckpointKind::Post || row.kind
                == CheckpointKind::Manual,
            Kinds::Rewinds => row.kind == CheckpointKind::PreRewind && row.rewind_target.is_some(),
        };
        let session_fits = match self.session {
            Some(s) => opt_is(&row.session_id, s),
            None => true,
        };
        let turn_fits = match self.turn {
            Some(t) => match row.turn {
                Some(u) => u == t,
                None => false,
            },
            None => true,
        };
        let from_fits = match self.from {
            Some(t) => t <= row.id,
            None => true,
        };
        let below_fits = match self.below {
            Some(t) => row.id < t,
            None => true,
        };
        kind_fits && session_fits && turn_fits && from_fits && below_fits
    }
}

/// Whether `row` is the last of the rows that answer a query.
pub open spec fn is_newest(rows: Seq<CheckpointRow>, q: Asked, row: CheckpointRow) -> bool {
    exists|i: int|
        0 <= i < rows.len() && rows[i] == row && #[trigger] admits(q, rows[i]) && forall|j: int|
            i < j < rows.len() ==> !admits(q, #[trigger] rows[j])
}

/// Whether `row` is the first of the rows that answer a query.
pub open spec fn is_oldest(rows: Seq<CheckpointRow>, q: Asked, row: CheckpointRow) -> bool {
    exists|i: int|
        0 <= i < rows.len() && rows[i] == row && #[trigger] admits(q, rows[i]) && forall|j: int|
            0 <= j < i ==> !admits(q, #[trigger] rows[j])
}

/// Whether no row answers a query.
pub open spec fn answers_nothing(rows: Seq<CheckpointRow>, q: Asked) -> bool {
    forall|i: int| 0 <= i < rows.len() ==> !admits(q, #[trigger] rows[i])
}

/// The rows that answer a query, oldest first.
pub open spec fn answers(rows: Seq<CheckpointRow>, q: Asked) -> Seq<CheckpointRow> {
    rows.filter(|row: CheckpointRow| admits(q, row))
}

/// At most `limit` rows that answer a query, newest first.
pub open spec fn newest_first(rows: Seq<CheckpointRow>, q: Asked, limit: nat) -> Seq<CheckpointRow> {
    let found = answers(rows, q).reverse();
    if found.len() <= limit { found } else { found.take(limit as int) }
}

/// The index of one repository.
pub struct Index {
    pub rows: Vec<CheckpointRow>,
    pub sessions: Vec<SessionRow>,
    pub turns: Vec<TurnRow>,
}

/// Whether rows stand in the order they were taken, each under its own id.
pub open spec fn ordered(rows: Seq<CheckpointRow>) -> bool {
    forall|i: int, j: int| 0 <= i < j < rows.len() ==> (#[trigger] rows[i]).id < (#[trigger] rows[j]).id
}

/// Whether no session is listed twice.
pub open spec fn sessions_distinct(sessions: Seq<SessionRow>) -> bool {
    forall|i: int, j: int|
        0 <= i < j < sessions.len() ==> (#[trigger] sessions[i]).session_id@ != (
        #[trigger] sessions[j]).session_id@
}

impl Index {
    /// What every operation keeps: rows in order under distinct ids, and no
    /// session twice.
    pub open spec fn wf(&self) -> bool {
        ordered(self.rows@) && sessions_distinct(self.sessions@)
    }

    /// The id that the next row gets.
    pub open spec fn next_id(&self) -> int {
        if self.rows@.len() == 0 { 1 } else { self.rows@.last().id + 1 }
    }

    /// An index with nothing in it.
    pub fn new() -> (r: Index)
        ensures
            r.wf(),
            r.rows@.len() == 0,
            r.sessions@.len() == 0,
            r.turns@.len() == 0,
    {
        Index { rows: Vec::new(), sessions: Vec::new(), turns: Vec::new() }
    }
}

/// The turn that a session is in: the number of its last prompt.
pub open spec fn current_turn(turns: Seq<TurnRow>, session: Seq<char>) -> Option<i64>
    decreases turns.len(),
{
    if turns.len() == 0 {
        None
    } else if turns.last().session_id@ == session {
        Some(turns.last().turn)
    } else {
        current_turn(turns.drop_last(), session)
    }
}

/// The turn that a new row carries: its own, or else its session's.
pub open spec fn inherited_turn(turns: Seq<TurnRow>, attribution: Attribution) -> Option<i64> {
    match (attribution.turn, attribution.session_id) {
        (Some(turn), _) => Some(turn),
        (None, Some(session)) => current_turn(turns, session@),
        (None, None) => None,
    }
}

/// The row of a successful checkpoint.
pub open spec fn success_row(
    id: int,
    generation: GenerationId,
    kind: CheckpointKind,
    now: i64,
    attribution: Attribution,
    turn: Option<i64>,
) -> CheckpointRow {
    CheckpointRow {
        id: id as i64,
        generation,
        created_at: now,
        kind,
        published: false,
        session_id: attribution.session_id,
        tool_call_id: attribution.tool_call_id,
        tool_name: attribution.tool_name,
        label: attribution.label,
        error: None,
        turn,
        rewind_target: attribution.rewind_target,
    }
}

/// The row of a failed capture: the generation of before, no label.
pub open spec fn failure_row(
    id: int,
    generation: GenerationId,
    now: i64,
    error: String,
    attribution: Attribution,
    turn: Option<i64>,
) -> CheckpointRow {
    CheckpointRow {
        id: id as i64,
        generation,
        created_at: now,
        kind: CheckpointKind::Failed,
        published: false,
        session_id: attribution.session_id,
        tool_call_id: attribution.tool_call_id,
        tool_name: attribution.tool_name,
        label: None,
        error: Some(error),
        turn,
        rewind_target: None,
    }
}

impl Index {
    /// The turn that a session is in.
    pub fn current_turn_of(&self, session: &str) -> (r: Option<i64>)
        ensures
            r == current_turn(self.turns@, session@),
    {
        let mut n: usize = self.turns.len();
        assert(self.turns@.take(n as int) =~= self.turns@);
        while n > 0
            invariant
                n <= self.turns@.len(),
                current_turn(self.turns@, session@) == current_turn(
                    self.turns@.take(n as int),
                    session@,
                ),
            decreases n,
        {
            let row = &self.turns[n - 1];
            assert(self.turns@.take(n as int).last() == row);
            assert(self.turns@.take(n as int).drop_last() =~= self.turns@.take(n - 1));
            if text_eq(row.session_id.as_str(), session) {
                return Some(row.turn);
            }
            n -= 1;
        }
        None
    }

    fn turn_for(&self, attribution: &Attribution) -> (r: Option<i64>)
        ensures
            r == inherited_turn(self.turns@, *attribution),
    {
        if attribution.turn.is_some() {
            return attribution.turn;
        }
        match &attribution.session_id {
            Some(session) => self.current_turn_of(session.as_str()),
            None => None,
        }
    }

    fn free_id(&self) -> (r: i64)
        requires
            self.next_id() <= i64::MAX,
        ensures
            r == self.next_id(),
    {
        if self.rows.len() == 0 {
            1
        } else {
            self.rows[self.rows.len() - 1].id + 1
        }
    }

    /// Records a successful checkpoint; returns the row's id.
    pub fn record(
        &mut self,
        generation: GenerationId,
        kind: CheckpointKind,
        attribution: &Attribution,
        now: i64,
    ) -> (id: i64)
        requires
            old(self).wf(),
            old(self).next_id() <= i64::MAX,
        ensures
            final(self).wf(),
            id == old(self).next_id(),
            final(self).rows@ == old(self).rows@.push(
                success_row(
                    old(self).next_id(),
                    generation,
                    kind,
                    now,
                    *attribution,
                    inherited_turn(old(self).turns@, *attribution),
                ),
            ),
            final(self).sessions == old(self).sessions,
            final(self).turns == old(self).turns,
    {
        let id: i64 = self.free_id();
        let turn = self.turn_for(attribution);
        self.rows.push(
            CheckpointRow {
                id,
                generation,
                created_at: now,
                kind,
                published: false,
                session_id: copy_opt(&attribution.session_id),
                tool_call_id: copy_opt(&attribution.tool_call_id),
                tool_name: copy_opt(&attribution.tool_name),
                label: copy_opt(&attribution.label),
                error: None,
                turn,
                rewind_target: attribution.rewind_target,
            },
        );
        id
    }

    /// Records a failed capture attempt. No generation advanced: the previous
    /// one is stored so the timeline stays navigable.
    pub fn record_failure(
        &mut self,
        last_generation: GenerationId,
        error: &String,
        attribution: &Attribution,
        now: i64,
    ) -> (id: i64)
        requires
            old(self).wf(),
            old(self).next_id() <= i64::MAX,
        ensures
            final(self).wf(),
            id == old(self).next_id(),
            final(self).rows@ == old(self).rows@.push(
                failure_row(
                    old(self).next_id(),
                    last_generation,
                    now,
                    *error,
                    *attribution,
                    inherited_turn(old(self).turns@, *attribution),
                ),
            ),
            final(self).sessions == old(self).sessions,
            final(self).turns == old(self).turns,
    {
        let id: i64 = self.free_id();
        let turn = self.turn_for(attribution);
        self.rows.push(
            CheckpointRow {
                id,
                generation: last_generation,
                created_at: now,
                kind: CheckpointKind::Failed,
                published: false,
                session_id: copy_opt(&attribution.session_id),
                tool_call_id: copy_opt(&attribution.tool_call_id),
                tool_name: copy_opt(&attribution.tool_name),
                label: None,
                error: Some(error.clone()),
                turn,
                rewind_target: None,
            },
        );
        id
    }

    /// Marks every checkpoint up to `through_id` as covered by an authority
    /// commit.
    pub fn mark_published(&mut self, through_id: i64)
        requires
            old(self).wf(),
        ensures
            final(self).wf(),
            final(self).rows@ == published_through(old(self).rows@, through_id as int),
            final(self).sessions == old(self).sessions,
            final(self).turns == old(self).turns,
    {
        let ghost before = self.rows@;
        let mut i: usize = 0;
        while i < self.rows.len()
            invariant
                i <= self.rows@.len() == before.len(),
                before == old(self).rows@,
                self.sessions == old(self).sessions,
                self.turns == old(self).turns,
                forall|j: int|
                    0 <= j < i ==> self.rows@[j] == published_through(
                        before,
                        through_id as int,
                    )[j],
                forall|j: int| i <= j < before.len() ==> self.rows@[j] == before[j],
            decreases self.rows.len() - i,
        {
            if self.rows[i].id <= through_id {
                let mut row = self.rows[i].clone();
                row.published = true;
                self.rows.set(i, row);
            }
            i += 1;
        }
        assert(self.rows@ =~= published_through(before, through_id as int));
    }

    /// Number of checkpoints not yet covered by an authority commit.
    pub fn unpublished_count(&self) -> (r: u64)
        ensures
            r == unpublished(self.rows@).len(),
    {
        let mut count: u64 = 0;
        let mut i: usize = 0;
        while i < self.rows.len()
            invariant
                i <= self.rows@.len(),
                count == unpublished(self.rows@.take(i as int)).len(),
                count <= i,
            decreases self.rows.len() - i,
        {
            let row = &self.rows[i];
            proof {
                assert(self.rows@.take(i + 1).drop_last() =~= self.rows@.take(i as int));
                reveal(Seq::filter);
            }
            if !row.published && row.kind != CheckpointKind::Failed {
                count += 1;
            }
            i += 1;
        }
        assert(self.rows@.take(i as int) =~= self.rows@);
        count
    }

    /// The last row that answers a query.
    pub fn newest(&self, q: &Query) -> (r: Option<CheckpointRow>)
        ensures
            match r {
                Some(row) => is_newest(self.rows@, q@, row),
                None => answers_nothing(self.rows@, q@),
            },
    {
        let mut n: usize = self.rows.len();
        while n > 0
            invariant
                n <= self.rows@.len(),
                forall|j: int| n <= j < self.rows@.len() ==> !admits(q@, #[trigger] self.rows@[j]),
            decreases n,
        {
            if q.check(&self.rows[n - 1]) {
                assert(admits(q@, self.rows@[n - 1]));
                return Some(self.rows[n - 1].clone());
            }
            n -= 1;
        }
        None
    }

    /// The first row that answers a query.
    pub fn first(&self, q: &Query) -> (r: Option<CheckpointRow>)
        ensures
            match r {
                Some(row) => is_oldest(self.rows@, q@, row),
                None => answers_nothing(self.rows@, q@),
            },
    {
        let mut n: usize = 0;
        while n < self.rows.len()
            invariant
                n <= self.rows@.len(),
                forall|j: int| 0 <= j < n ==> !admits(q@, #[trigger] self.rows@[j]),
            decreases self.rows.len() - n,
        {
            if q.check(&self.rows[n]) {
                assert(admits(q@, self.rows@[n as int]));
                return Some(self.rows[n].clone());
            }
            n += 1;
        }
        None
    }

    /// The rows that answer a query, oldest first.
    pub fn select(&self, q: &Query) -> (r: Vec<CheckpointRow>)
        ensures
            r@ == answers(self.rows@, q@),
    {
        let mut out: Vec<CheckpointRow> = Vec::new();
        let mut n: usize = 0;
        while n < self.rows.len()
            invariant
                n <= self.rows@.len(),
                out@ == answers(self.rows@.take(n as int), q@),
            decreases self.rows.len() - n,
        {
            proof {
                assert(self.rows@.take(n + 1).drop_last() =~= self.rows@.take(n as int));
                reveal(Seq::filter);
            }
            if q.check(&self.rows[n]) {
                out.push(self.rows[n].clone());
            }
            n += 1;
        }
        assert(self.rows@.take(n as int) =~= self.rows@);
        out
    }

    /// At most `limit` rows that answer a query, newest first.
    pub fn select_newest(&self, q: &Query, limit: u32) -> (r: Vec<CheckpointRow>)
        ensures
            r@ == newest_first(self.rows@, q@, limit as nat),
    {
        let found = self.select(q);
        let mut out: Vec<CheckpointRow> = Vec::new();
        let mut n: usize = found.len();
        while n > 0 && out.len() < limit as usize
            invariant
                n <= found@.len(),
                found@ == answers(self.rows@, q@),
                out@.len() == found@.len() - n,
                out@.len() <= limit,
                forall|j: int| 0 <= j < out@.len() ==> out@[j] == found@[found@.len() - 1 - j],
            decreases n,
        {
            out.push(found[n - 1].clone());
            n -= 1;
        }
        assert(out@ =~= newest_first(self.rows@, q@, limit as nat));
        out
    }
}

/// Rows with those up to an id marked as published.
pub open spec fn published_through(rows: Seq<CheckpointRow>, through: int) -> Seq<CheckpointRow> {
    rows.map_values(
        |row: CheckpointRow|
            if row.id <= through {
                CheckpointRow { published: true, ..row }
            } else {
                row
            },
    )
}

/// The rows that no authority commit covers yet.
pub open spec fn unpublished(rows: Seq<CheckpointRow>) -> Seq<CheckpointRow> {
    rows.filter(|row: CheckpointRow| !row.published && row.kind != CheckpointKind::Failed)
}

/// The rows of one session.
pub open spec fn ask_session(kinds: Kinds, session: Seq<char>) -> Asked {
    Asked { session: Some(session), ..ask(kinds) }
}

/// An optional turn as it is asked for.
pub open spec fn asked_turn(turn: Option<i64>) -> Option<int> {
    match turn {
        Some(t) => Some(t as int),
        None => None,
    }
}

/// Position of a session in the list of sessions.
pub open spec fn session_at(sessions: Seq<SessionRow>, session: Seq<char>, i: int) -> bool {
    0 <= i < sessions.len() && sessions[i].session_id@ == session
}

impl Index {
    /// The row of an id.
    pub fn by_id(&self, id: i64) -> (r: Option<CheckpointRow>)
        ensures
            match r {
                Some(row) => row.id == id && self.rows@.contains(row),
                None => forall|i: int| 0 <= i < self.rows@.len() ==> (#[trigger] self.rows@[i]).id != id,
            },
    {
        let mut n: usize = 0;
        while n < self.rows.len()
            invariant
                n <= self.rows@.len(),
                forall|j: int| 0 <= j < n ==> (#[trigger] self.rows@[j]).id != id,
            decreases self.rows.len() - n,
        {
            if self.rows[n].id == id {
                assert(self.rows@.contains(self.rows@[n as int]));
                return Some(self.rows[n].clone());
            }
            n += 1;
        }
        None
    }

    /// Most recent checkpoint a user would rewind to: real snapshots only,
    /// skipping bookkeeping rows.
    pub fn latest_target(&self) -> (r: Option<CheckpointRow>)
        ensures
            match r {
                Some(row) => is_newest(self.rows@, ask(Kinds::Targets), row),
                None => answers_nothing(self.rows@, ask(Kinds::Targets)),
            },
    {
        self.newest(&Query::of(Kinds::Targets))
    }

    /// The same among the rows before an id.
    pub fn latest_target_before(&self, id: i64) -> (r: Option<CheckpointRow>)
        ensures
            match r {
                Some(row) => is_newest(
                    self.rows@,
                    (Asked { below: Some(id as int), ..ask(Kinds::Targets) }),
                    row,
                ),
                None => answers_nothing(
                    self.rows@,
                    (Asked { below: Some(id as int), ..ask(Kinds::Targets) }),
                ),
            },
    {
        self.newest(&Query { kinds: Kinds::Targets, session: None, turn: None, from: None, below: Some(id) })
    }

    /// Most recent checkpoint of any non-failed kind.
    pub fn latest(&self) -> (r: Option<CheckpointRow>)
        ensures
            match r {
                Some(row) => is_newest(self.rows@, ask(Kinds::Restorable), row),
                None => answers_nothing(self.rows@, ask(Kinds::Restorable)),
            },
    {
        self.newest(&Query::of(Kinds::Restorable))
    }

    /// The first non-failed checkpoint on record.
    pub fn oldest(&self) -> (r: Option<CheckpointRow>)
        ensures
            match r {
                Some(row) => is_oldest(self.rows@, ask(Kinds::Restorable), row),
                None => answers_nothing(self.rows@, ask(Kinds::Restorable)),
            },
    {
        self.first(&Query::of(Kinds::Restorable))
    }

    /// Newest-first listing, optionally scoped to one session and turn.
    pub fn list(&self, session_id: Option<&str>, turn: Option<i64>, limit: u32) -> (r: Vec<CheckpointRow>)
        ensures
            r@ == newest_first(
                self.rows@,
                (Asked {
                    session: crate::text::opt_str(session_id),
                    turn: asked_turn(turn),
                    ..ask(Kinds::Any)
                }),
                limit as nat,
            ),
    {
        self.select_newest(
            &Query { kinds: Kinds::Any, session: session_id, turn, from: None, below: None },
            limit,
        )
    }

    /// First non-failed checkpoint of one session.
    pub fn session_start(&self, session_id: &str) -> (r: Option<CheckpointRow>)
        ensures
            match r {
                Some(row) => is_oldest(
                    self.rows@,
                    ask_session(Kinds::Restorable, session_id@),
                    row,
                ),
                None => answers_nothing(self.rows@, ask_session(Kinds::Restorable, session_id@)),
            },
    {
        self.first(
            &Query { kinds: Kinds::Restorable, session: Some(session_id), turn: None, from: None, below: None },
        )
    }

    /// Last non-failed checkpoint of one session.
    pub fn session_end(&self, session_id: &str) -> (r: Option<CheckpointRow>)
        ensures
            match r {
                Some(row) => is_newest(
                    self.rows@,
                    ask_session(Kinds::Restorable, session_id@),
                    row,
                ),
                None => answers_nothing(self.rows@, ask_session(Kinds::Restorable, session_id@)),
            },
    {
        self.newest(
            &Query { kinds: Kinds::Restorable, session: Some(session_id), turn: None, from: None, below: None },
        )
    }

    /// The safety rows of rewinds with ids from `from` through `through`.
    pub fn rewinds_between(&self, from: i64, through: i64) -> (r: Vec<CheckpointRow>)
        ensures
            r@ == answers(self.rows@, ask_rewinds(from as int, through as int)),
    {
        let below = if through < i64::MAX { Some((through + 1) as i64) } else { None };
        let q = Query { kinds: Kinds::Rewinds, session: None, turn: None, from: Some(from), below };
        proof {
            lemma_same_answers(self.rows@, q@, ask_rewinds(from as int, through as int));
        }
        self.select(&q)
    }

    /// The non-failed rows strictly between two ids.
    pub fn between(&self, after: i64, below: i64) -> (r: Vec<CheckpointRow>)
        ensures
            r@ == answers(self.rows@, ask_between(after as int, below as int)),
    {
        let ghost wanted = ask_between(after as int, below as int);
        let (from, below) = if after < i64::MAX {
            ((after + 1) as i64, below)
        } else {
            (i64::MAX, i64::MIN)
        };
        let q = Query {
            kinds: Kinds::Restorable,
            session: None,
            turn: None,
            from: Some(from),
            below: Some(below),
        };
        proof {
            lemma_same_answers(self.rows@, q@, wanted);
        }
        self.select(&q)
    }

    /// The newest non-failed row whose generation's hexadecimal form begins
    /// with a prefix.
    pub fn by_generation_prefix(&self, prefix: &str) -> (r: Option<CheckpointRow>)
        ensures
            match r {
                Some(row) => exists|i: int|
                    0 <= i < self.rows@.len() && #[trigger] self.rows@[i] == row && prefixed(
                        row,
                        prefix@,
                    ) && forall|j: int|
                        i < j < self.rows@.len() ==> !prefixed(#[trigger] self.rows@[j], prefix@),
                None => forall|j: int|
                    0 <= j < self.rows@.len() ==> !prefixed(#[trigger] self.rows@[j], prefix@),
            },
    {
        let wanted = chars_of(prefix);
        let mut n: usize = self.rows.len();
        while n > 0
            invariant
                n <= self.rows@.len(),
                wanted@ == prefix@,
                forall|j: int| n <= j < self.rows@.len() ==> !prefixed(#[trigger] self.rows@[j], prefix@),
            decreases n,
        {
            let row = &self.rows[n - 1];
            let hex = chars_of(generation_hex(row.generation).as_str());
            if row.kind != CheckpointKind::Failed && occurs_here(hex.as_slice(), wanted.as_slice(), 0) {
                assert(prefixed(self.rows@[n - 1], prefix@));
                return Some(row.clone());
            }
            assert(!prefixed(self.rows@[n - 1], prefix@));
            n -= 1;
        }
        None
    }

    /// Whether a session is listed, and where.
    fn find_session(&self, session_id: &str) -> (r: Option<usize>)
        ensures
            match r {
                Some(i) => session_at(self.sessions@, session_id@, i as int),
                None => forall|i: int| !#[trigger] session_at(self.sessions@, session_id@, i),
            },
    {
        let mut n: usize = 0;
        while n < self.sessions.len()
            invariant
                n <= self.sessions@.len(),
                forall|i: int| 0 <= i < n ==> !#[trigger] session_at(self.sessions@, session_id@, i),
            decreases self.sessions.len() - n,
        {
            if text_eq(self.sessions[n].session_id.as_str(), session_id) {
                return Some(n);
            }
            n += 1;
        }
        None
    }

    /// The row of a session.
    pub fn session(&self, session_id: &str) -> (r: Option<SessionRow>)
        ensures
            match r {
                Some(row) => row.session_id@ == session_id@ && self.sessions@.contains(row),
                None => forall|i: int| !#[trigger] session_at(self.sessions@, session_id@, i),
            },
    {
        match self.find_session(session_id) {
            Some(i) => {
                assert(self.sessions@.contains(self.sessions@[i as int]));
                Some(self.sessions[i].clone())
            },
            None => None,
        }
    }

    /// The session that started last.
    pub fn latest_session(&self) -> (r: Option<SessionRow>)
        ensures
            match r {
                Some(row) => self.sessions@.len() > 0 && row == self.sessions@.last(),
                None => self.sessions@.len() == 0,
            },
    {
        if self.sessions.len() == 0 {
            None
        } else {
            Some(self.sessions[self.sessions.len() - 1].clone())
        }
    }

    /// Notes that a session started; a session that is listed already stays
    /// as it is.
    pub fn session_started(&mut self, session_id: &String, host: &String, now: i64)
        requires
            old(self).wf(),
        ensures
            final(self).wf(),
            final(self).rows == old(self).rows,
            final(self).turns == old(self).turns,
            (exists|i: int| #[trigger] session_at(old(self).sessions@, session_id@, i))
                ==> final(self).sessions@ == old(self).sessions@,
            (forall|i: int| !#[trigger] session_at(old(self).sessions@, session_id@, i))
                ==> final(self).sessions@ == old(self).sessions@.push(
                (SessionRow {
                    session_id: *session_id,
                    host: Some(*host),
                    started_at: now,
                    ended_at: None,
                }),
            ),
    {
        match self.find_session(session_id.as_str()) {
            Some(_) => {},
            None => {
                proof {
                    assert forall|i: int| 0 <= i < self.sessions@.len() implies (
                    #[trigger] self.sessions@[i]).session_id@ != session_id@ by {
                        assert(!session_at(self.sessions@, session_id@, i));
                    }
                }
                self.sessions.push(
                    SessionRow {
                        session_id: session_id.clone(),
                        host: Some(host.clone()),
                        started_at: now,
                        ended_at: None,
                    },
                );
            },
        }
    }

    /// Notes that a session ended; of an unknown session nothing is noted.
    pub fn session_ended(&mut self, session_id: &str, now: i64)
        requires
            old(self).wf(),
        ensures
            final(self).wf(),
            final(self).rows == old(self).rows,
            final(self).turns == old(self).turns,
            final(self).sessions@ == old(self).sessions@.map_values(
                |row: SessionRow|
                    if row.session_id@ == session_id@ {
                        SessionRow { ended_at: Some(now), ..row }
                    } else {
                        row
                    },
            ),
    {
        let ghost before = self.sessions@;
        match self.find_session(session_id) {
            Some(i) => {
                let mut row = self.sessions[i].clone();
                row.ended_at = Some(now);
                self.sessions.set(i, row);
            },
            None => {
                assert forall|i: int| 0 <= i < before.len() implies (
                #[trigger] before[i]).session_id@ != session_id@ by {
                    assert(!session_at(before, session_id@, i));
                }
            },
        }
        assert(self.sessions@ =~= before.map_values(
            |row: SessionRow|
                if row.session_id@ == session_id@ {
                    SessionRow { ended_at: Some(now), ..row }
                } else {
                    row
                },
        ));
    }

    /// The row of one turn of a session.
    pub fn turn(&self, session_id: &str, turn: i64) -> (r: Option<TurnRow>)
        ensures
            match r {
                Some(row) => row.session_id@ == session_id@ && row.turn == turn
                    && self.turns@.contains(row),
                None => forall|i: int|
                    0 <= i < self.turns@.len() ==> !(((#[trigger] self.turns@[i]).session_id@
                        == session_id@) && self.turns@[i].turn == turn),
            },
    {
        let mut n: usize = 0;
        while n < self.turns.len()
            invariant
                n <= self.turns@.len(),
                forall|i: int|
                    0 <= i < n ==> !(((#[trigger] self.turns@[i]).session_id@ == session_id@)
                        && self.turns@[i].turn == turn),
            decreases self.turns.len() - n,
        {
            if self.turns[n].turn == turn && text_eq(self.turns[n].session_id.as_str(), session_id) {
                assert(self.turns@.contains(self.turns@[n as int]));
                return Some(self.turns[n].clone());
            }
            n += 1;
        }
        None
    }

    /// Notes a prompt of a session: the next turn of it, with an excerpt of
    /// the prompt. Returns the turn's number.
    pub fn turn_started(&mut self, session_id: &String, prompt: &str, now: i64) -> (turn: i64)
        requires
            old(self).wf(),
            current_turn(old(self).turns@, session_id@) matches Some(t) ==> t < i64::MAX,
        ensures
            final(self).wf(),
            final(self).rows == old(self).rows,
            final(self).sessions == old(self).sessions,
            turn == match current_turn(old(self).turns@, session_id@) {
                Some(t) => t + 1,
                None => 1,
            },
            final(self).turns@.len() == old(self).turns@.len() + 1,
            final(self).turns@.drop_last() == old(self).turns@,
            final(self).turns@.last().session_id == *session_id,
            final(self).turns@.last().turn == turn,
            final(self).turns@.last().started_at == now,
            final(self).turns@.last().prompt@ == excerpt(prompt@),
    {
        let turn: i64 = match self.current_turn_of(session_id.as_str()) {
            Some(t) => t + 1,
            None => 1,
        };
        let prompt = fit(prompt, EXCERPT_BYTES);
        self.turns.push(TurnRow { session_id: session_id.clone(), turn, started_at: now, prompt });
        assert(self.turns@.drop_last() =~= old(self).turns@);
        turn
    }
}

/// The safety rows of rewinds from one id through another.
pub open spec fn ask_rewinds(from: int, through: int) -> Asked {
    Asked { from: Some(from), below: Some(through + 1), ..ask(Kinds::Rewinds) }
}

/// The rows of tree states strictly between two ids.
pub open spec fn ask_between(after: int, below: int) -> Asked {
    Asked { from: Some(after + 1), below: Some(below), ..ask(Kinds::Restorable) }
}

/// Queries that admit the same rows have the same answers.
pub proof fn lemma_same_answers(rows: Seq<CheckpointRow>, p: Asked, q: Asked)
    requires
        forall|row: CheckpointRow| #[trigger] admits(p, row) == admits(q, row),
    ensures
        answers(rows, p) == answers(rows, q),
    decreases rows.len(),
{
    reveal(Seq::filter);
    if rows.len() > 0 {
        lemma_same_answers(rows.drop_last(), p, q);
        assert(admits(p, rows.last()) == admits(q, rows.last()));
    }
}

/// Whether a row is a tree state whose hexadecimal identity begins with a
/// prefix.
pub open spec fn prefixed(row: CheckpointRow, prefix: Seq<char>) -> bool {
    row.kind != CheckpointKind::Failed && begins(hex_of(row.generation@), prefix)
}

/// Longest prompt excerpt that is kept, in bytes.
pub const EXCERPT_BYTES: usize = 240;

/// The longest beginning of a text that fits in an excerpt.
pub open spec fn excerpt(s: Seq<char>) -> Seq<char> {
    fitting(s, EXCERPT_BYTES as nat)
}

/// The columns of a stored row.
pub struct RawRow {
    pub id: i64,
    pub generation: Vec<u8>,
    pub created_at: i64,
    pub kind: String,
    pub published: i64,
    pub session_id: Option<String>,
    pub tool_call_id: Option<String>,
    pub tool_name: Option<String>,
    pub label: Option<String>,
    pub error: Option<String>,
    pub turn: Option<i64>,
    pub rewind_target: Option<i64>,
}

/// Whether stored columns hold a row.
pub open spec fn holds_row(raw: RawRow, row: CheckpointRow) -> bool {
    &&& raw.generation@.len() == DIGEST_BYTES
    &&& row.generation@ == raw.generation@
    &&& raw.kind@ == kind_name(row.kind)
    &&& row.published == (raw.published != 0)
    &&& row == (CheckpointRow {
        id: raw.id,
        generation: row.generation,
        created_at: raw.created_at,
        kind: row.kind,
        published: row.published,
        session_id: raw.session_id,
        tool_call_id: raw.tool_call_id,
        tool_name: raw.tool_name,
        label: raw.label,
        error: raw.error,
        turn: raw.turn,
        rewind_target: raw.rewind_target,
    })
}

/// What is stored reads back as it was: columns hold one row at most.
pub proof fn law_stored_rows_read_back(raw: RawRow, written: CheckpointRow, read: CheckpointRow)
    requires
        holds_row(raw, written),
        holds_row(raw, read),
    ensures
        read == written,
{
    law_kind_names_differ(written.kind, read.kind);
    assert(written.generation.bytes =~= read.generation.bytes);
}

/// A checkpoint is found by its id as it is on record.
pub proof fn law_rows_are_found_by_id(index: Index, row: CheckpointRow, found: CheckpointRow)
    requires
        index.wf(),
        index.rows@.contains(row),
        index.rows@.contains(found),
        found.id == row.id,
    ensures
        found == row,
{
    let i = choose|i: int| 0 <= i < index.rows@.len() && index.rows@[i] == row;
    let j = choose|j: int| 0 <= j < index.rows@.len() && index.rows@[j] == found;
    assert(i == j) by {
        if i < j {
            assert(index.rows@[i].id < index.rows@[j].id);
        } else if j < i {
            assert(index.rows@[j].id < index.rows@[i].id);
        }
    }
}

/// The columns that a row is stored in.
pub fn checkpoint_to_row(row: &CheckpointRow) -> (r: RawRow)
    ensures
        holds_row(r, *row),
{
    RawRow {
        id: row.id,
        generation: vstd::slice::slice_to_vec(row.generation.bytes.as_slice()),
        created_at: row.created_at,
        kind: row.kind.as_str().to_owned(),
        published: if row.published { 1 } else { 0 },
        session_id: copy_opt(&row.session_id),
        tool_call_id: copy_opt(&row.tool_call_id),
        tool_name: copy_opt(&row.tool_name),
        label: copy_opt(&row.label),
        error: copy_opt(&row.error),
        turn: row.turn,
        rewind_target: row.rewind_target,
    }
}

/// The row that stored columns hold, or what is wrong with them.
pub fn row_to_checkpoint(raw: RawRow) -> (r: Result<CheckpointRow, String>)
    ensures
        match r {
            Ok(row) => holds_row(raw, row),
            Err(message) => if raw.generation@.len() != DIGEST_BYTES {
                message@ == "generation digest is not 32 bytes"@
            } else {
                &&& forall|kind: CheckpointKind| raw.kind@ != #[trigger] kind_name(kind)
                &&& message@ == "store: unknown checkpoint kind "@ + raw.kind@
            },
        },
{
    if raw.generation.len() != DIGEST_BYTES {
        return Err("generation digest is not 32 bytes".to_owned());
    }
    let generation = from_digest_bytes(raw.generation.as_slice());
    let kind = match CheckpointKind::parse(raw.kind.as_str()) {
        Ok(kind) => kind,
        Err(_) => {
            let mut message = "store: unknown checkpoint kind ".to_owned();
            message.append(raw.kind.as_str());
            return Err(message);
        },
    };
    Ok(
        CheckpointRow {
            id: raw.id,
            generation,
            created_at: raw.created_at,
            kind,
            published: raw.published != 0,
            session_id: raw.session_id,
            tool_call_id: raw.tool_call_id,
            tool_name: raw.tool_name,
            label: raw.label,
            error: raw.error,
            turn: raw.turn,
            rewind_target: raw.rewind_target,
        },
    )
}

} // verus!
