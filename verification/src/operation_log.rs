//! The operation log: the reversible history of applied scene commands.
//!
//! Each entry holds the command that was applied, its inverse and its metadata. Undo
//! applies the inverse of the entry at the cursor and moves the cursor back; redo moves
//! the cursor forward and applies that entry's command again. Recording a command
//! after an undo drops the redo branch, and the oldest entries are evicted once the
//! log holds more than its maximum size.

use vstd::prelude::*;
use vstd::string::*;
use crate::command::{
    Command, CommandV, CommandError, ErrV, CommandMetadata, CommandEnvelope, err_message,
    clone_command, clone_metadata,
};
use crate::document::{SceneDocument, DocV, opt_view, clone_opt_string, clone_document};
use crate::history::{History, recorded_entries, DEFAULT_MAX_LOG_SIZE};
use crate::processor::{ProcessorContext, spec_apply, apply_with_context, applied};
use crate::text::{str_equal, starts_with, is_prefix, concat2};
use crate::json::strs_view;

verus! {

/// One applied command: what was done, how to undo it, and who did it.
#[derive(Debug)]
pub struct LogEntry {
    pub forward: Command,
    pub inverse: Command,
    pub metadata: CommandMetadata,
    /// Where the change came from: `"Human"`, `"Agent"`, `"Migration"`, ...
    pub origin: Option<String>,
    /// Who authored the change; usually the metadata's authorship.
    pub actor: Option<String>,
    /// The change set this entry belongs to.
    pub change_id: Option<String>,
}

/// Model of a log entry.
pub struct LogEntryV {
    pub forward: CommandV,
    pub inverse: CommandV,
    pub authorship: Seq<char>,
    pub timestamp: u64,
    pub rationale: Option<Seq<char>>,
    pub origin: Option<Seq<char>>,
    pub actor: Option<Seq<char>>,
    pub change_id: Option<Seq<char>>,
}

impl LogEntry {
    pub open spec fn view(&self) -> LogEntryV {
        LogEntryV {
            forward: self.forward@,
            inverse: self.inverse@,
            authorship: self.metadata.authorship@,
            timestamp: self.metadata.timestamp,
            rationale: opt_view(self.metadata.rationale),
            origin: opt_view(self.origin),
            actor: opt_view(self.actor),
            change_id: opt_view(self.change_id),
        }
    }

    /// An entry made of the given parts.
    pub fn new(
        forward: Command,
        inverse: Command,
        metadata: CommandMetadata,
        origin: Option<String>,
        actor: Option<String>,
        change_id: Option<String>,
    ) -> (r: LogEntry)
        ensures
            r.forward == forward,
            r.inverse == inverse,
            r.metadata == metadata,
            r.origin == origin,
            r.actor == actor,
            r.change_id == change_id,
    {
        LogEntry { forward, inverse, metadata, origin, actor, change_id }
    }
}

/// The models of a list of entries.
pub open spec fn entries_view(es: Seq<LogEntry>) -> Seq<LogEntryV> {
    es.map_values(|e: LogEntry| e@)
}

/// The origin recorded for a change whose author is `actor` when none is given:
/// `"user"` is a human, `"agent:..."` an agent, `"system"` a migration, anyone else
/// a human.
pub open spec fn inferred_origin(actor: Seq<char>) -> Seq<char> {
    if actor == "user"@ {
        "Human"@
    } else if is_prefix("agent:"@, actor) {
        "Agent"@
    } else if actor == "system"@ {
        "Migration"@
    } else {
        "Human"@
    }
}

/// Model of an operation-log error.
pub enum LogErrV {
    NothingToUndo,
    NothingToRedo,
    CommandFailed(ErrV),
    InverseFailed(Seq<char>),
}

/// Errors of undo and redo.
#[derive(Debug)]
pub enum OperationLogError {
    NothingToUndo,
    NothingToRedo,
    /// Re-applying a command failed.
    CommandFailed(CommandError),
    /// Applying an inverse failed; holds the command error's message.
    InverseFailed(String),
}

impl OperationLogError {
    pub open spec fn view(&self) -> LogErrV {
        match self {
            OperationLogError::NothingToUndo => LogErrV::NothingToUndo,
            OperationLogError::NothingToRedo => LogErrV::NothingToRedo,
            OperationLogError::CommandFailed(e) => LogErrV::CommandFailed(e@),
            OperationLogError::InverseFailed(s) => LogErrV::InverseFailed(s@),
        }
    }

    /// The human-readable message of this error.
    pub fn to_string(&self) -> (r: String)
        ensures
            r@ == log_err_message(self@),
    {
        match self {
            OperationLogError::NothingToUndo => String::from_str("Nothing to undo"),
            OperationLogError::NothingToRedo => String::from_str("Nothing to redo"),
            OperationLogError::CommandFailed(e) => {
                let m = e.to_string();
                concat2("Command failed: ", m.as_str())
            },
            OperationLogError::InverseFailed(s) => concat2("Inverse application failed: ", s.as_str()),
        }
    }
}

/// The message an operation-log error displays.
pub open spec fn log_err_message(e: LogErrV) -> Seq<char> {
    match e {
        LogErrV::NothingToUndo => "Nothing to undo"@,
        LogErrV::NothingToRedo => "Nothing to redo"@,
        LogErrV::CommandFailed(c) => "Command failed: "@ + err_message(c),
        LogErrV::InverseFailed(s) => "Inverse application failed: "@ + s,
    }
}

/// Undo on a log with entries `es` and cursor `c`, over document `d`: the new cursor
/// and document, or the error.
pub open spec fn spec_undo(es: Seq<LogEntryV>, c: int, d: DocV, types: Seq<Seq<char>>) -> Result<(int, DocV), LogErrV> {
    if c < 0 {
        Err(LogErrV::NothingToUndo)
    } else {
        match spec_apply(d, es[c].inverse, types) {
            Ok((d1, _)) => Ok((c - 1, d1)),
            Err(e) => Err(LogErrV::InverseFailed(err_message(e))),
        }
    }
}

/// Redo on a log with entries `es` and cursor `c`, over document `d`.
pub open spec fn spec_redo(es: Seq<LogEntryV>, c: int, d: DocV, types: Seq<Seq<char>>) -> Result<(int, DocV), LogErrV> {
    if c >= es.len() - 1 {
        Err(LogErrV::NothingToRedo)
    } else {
        match spec_apply(d, es[c + 1].forward, types) {
            Ok((d1, _)) => Ok((c + 1, d1)),
            Err(e) => Err(LogErrV::CommandFailed(e)),
        }
    }
}

/// Recording commutes with taking models.
proof fn lemma_recorded_view(es: Seq<LogEntry>, c: int, max: nat, e: LogEntry)
    requires
        -1 <= c < es.len(),
    ensures
        entries_view(recorded_entries(es, c, max, e)) == recorded_entries(entries_view(es), c, max, e@),
{
    let kept = if c < es.len() - 1 { es.subrange(0, c + 1) } else { es };
    let kv = if c < es.len() - 1 { entries_view(es).subrange(0, c + 1) } else { entries_view(es) };
    assert(entries_view(kept) =~= kv);
    assert(entries_view(kept.push(e)) =~= kv.push(e@));
    let pushed = kept.push(e);
    if pushed.len() > max {
        assert(entries_view(pushed.subrange(pushed.len() - max, pushed.len() as int)) =~= kv.push(e@).subrange(
            pushed.len() - max,
            pushed.len() as int,
        ));
    }
}

/// The reversible history of applied commands.
#[derive(Debug)]
pub struct OperationLog {
    history: History<LogEntry>,
}

impl OperationLog {
    /// The models of the entries, oldest first.
    pub closed spec fn entries(&self) -> Seq<LogEntryV> {
        entries_view(self.history.entries())
    }

    /// Index of the last applied entry; -1 when every entry is undone.
    pub closed spec fn cursor(&self) -> int {
        self.history.cursor()
    }

    /// The maximum number of entries kept.
    pub closed spec fn max_size(&self) -> nat {
        self.history.max_size()
    }

    /// The log is consistent: the cursor lies in `-1 .. len` and at most `max_size`
    /// entries are held.
    pub closed spec fn wf(&self) -> bool {
        self.history.wf()
    }

    /// The facts `wf` stands for.
    pub proof fn lemma_wf(&self)
        requires
            self.wf(),
        ensures
            -1 <= self.cursor() < self.entries().len(),
            self.entries().len() <= self.max_size(),
            self.entries().len() <= isize::MAX,
    {
    }

    /// An empty log keeping at most `max_size` entries.
    pub fn with_max_size(max_size: usize) -> (r: OperationLog)
        ensures
            r.wf(),
            r.entries() == Seq::<LogEntryV>::empty(),
            r.cursor() == -1,
            r.max_size() == max_size,
    {
        let r = OperationLog { history: History::with_max_size(max_size) };
        assert(r.entries() =~= Seq::<LogEntryV>::empty());
        r
    }

    /// An empty log keeping at most 1000 entries.
    pub fn new() -> (r: OperationLog)
        ensures
            r.wf(),
            r.entries() == Seq::<LogEntryV>::empty(),
            r.cursor() == -1,
            r.max_size() == DEFAULT_MAX_LOG_SIZE,
    {
        Self::with_max_size(DEFAULT_MAX_LOG_SIZE)
    }

    /// The same empty log as `new`, for initialising shared state.
    pub fn new_const() -> (r: OperationLog)
        ensures
            r.wf(),
            r.entries() == Seq::<LogEntryV>::empty(),
            r.cursor() == -1,
            r.max_size() == DEFAULT_MAX_LOG_SIZE,
    {
        Self::with_max_size(DEFAULT_MAX_LOG_SIZE)
    }

    fn record_entry(&mut self, e: LogEntry)
        requires
            old(self).wf(),
            old(self).entries().len() < isize::MAX,
        ensures
            final(self).wf(),
            final(self).entries() == recorded_entries(old(self).entries(), old(self).cursor(), old(self).max_size(), e@),
            final(self).cursor() == final(self).entries().len() - 1,
            final(self).max_size() == old(self).max_size(),
    {
        proof {
            lemma_recorded_view(self.history.entries(), self.history.cursor(), self.history.max_size(), e);
        }
        self.history.record(e);
    }

    /// Record a command that was just applied to the document, with its inverse. The
    /// origin and actor are taken from the envelope's authorship.
    pub fn record(&mut self, envelope: &CommandEnvelope, inverse: Command)
        requires
            old(self).wf(),
            old(self).entries().len() < isize::MAX,
        ensures
            final(self).wf(),
            final(self).entries() == recorded_entries(
                old(self).entries(),
                old(self).cursor(),
                old(self).max_size(),
                LogEntryV {
                    forward: envelope.command@,
                    inverse: inverse@,
                    authorship: envelope.metadata.authorship@,
                    timestamp: envelope.metadata.timestamp,
                    rationale: opt_view(envelope.metadata.rationale),
                    origin: Some(inferred_origin(envelope.metadata.authorship@)),
                    actor: Some(envelope.metadata.authorship@),
                    change_id: None,
                },
            ),
            final(self).cursor() == final(self).entries().len() - 1,
            final(self).max_size() == old(self).max_size(),
    {
        let actor = envelope.metadata.authorship.clone();
        let origin = if str_equal(actor.as_str(), "user") {
            String::from_str("Human")
        } else if starts_with(actor.as_str(), "agent:") {
            String::from_str("Agent")
        } else if str_equal(actor.as_str(), "system") {
            String::from_str("Migration")
        } else {
            String::from_str("Human")
        };
        let e = LogEntry::new(
            clone_command(&envelope.command),
            inverse,
            clone_metadata(&envelope.metadata),
            Some(origin),
            Some(actor),
            None,
        );
        self.record_entry(e);
    }

    /// Record a command that was just applied, with its inverse and its provenance.
    pub fn record_with_provenance(
        &mut self,
        envelope: &CommandEnvelope,
        inverse: Command,
        origin: String,
        actor: String,
        change_id: Option<String>,
    )
        requires
            old(self).wf(),
            old(self).entries().len() < isize::MAX,
        ensures
            final(self).wf(),
            final(self).entries() == recorded_entries(
                old(self).entries(),
                old(self).cursor(),
                old(self).max_size(),
                LogEntryV {
                    forward: envelope.command@,
                    inverse: inverse@,
                    authorship: envelope.metadata.authorship@,
                    timestamp: envelope.metadata.timestamp,
                    rationale: opt_view(envelope.metadata.rationale),
                    origin: Some(origin@),
                    actor: Some(actor@),
                    change_id: opt_view(change_id),
                },
            ),
            final(self).cursor() == final(self).entries().len() - 1,
            final(self).max_size() == old(self).max_size(),
    {
        let e = LogEntry::new(
            clone_command(&envelope.command),
            inverse,
            clone_metadata(&envelope.metadata),
            Some(origin),
            Some(actor),
            change_id,
        );
        self.record_entry(e);
    }

    /// Undo the entry at the cursor: apply its inverse to `doc` and move the cursor
    /// back. Returns a copy of the document afterwards. On any error neither the log
    /// nor the document changes.
    pub fn undo(&mut self, doc: &mut SceneDocument, ctx: &ProcessorContext) -> (r: Result<SceneDocument, OperationLogError>)
        requires
            old(self).wf(),
        ensures
            final(self).wf(),
            final(self).entries() == old(self).entries(),
            final(self).max_size() == old(self).max_size(),
            match r {
                Ok(snapshot) => {
                    &&& spec_undo(old(self).entries(), old(self).cursor(), old(doc)@, ctx.types())
                        == Ok::<(int, DocV), LogErrV>((final(self).cursor(), final(doc)@))
                    &&& snapshot@ == final(doc)@
                },
                Err(e) => {
                    &&& spec_undo(old(self).entries(), old(self).cursor(), old(doc)@, ctx.types())
                        == Err::<(int, DocV), LogErrV>(e@)
                    &&& final(doc)@ == old(doc)@
                    &&& final(self).cursor() == old(self).cursor()
                },
            },
    {
        if !self.history.can_undo() {
            return Err(OperationLogError::NothingToUndo);
        }
        let entry = self.history.current();
        let ghost ev = entry@;
        assert(ev == self.entries()[self.cursor()]);
        match apply_with_context(doc, &entry.inverse, ctx) {
            Err(e) => {
                let m = e.to_string();
                Err(OperationLogError::InverseFailed(m))
            },
            Ok(_) => {
                self.history.step_back();
                Ok(clone_document(doc))
            },
        }
    }

    /// Redo the entry after the cursor: move the cursor forward and apply that entry's
    /// command to `doc`. Returns a copy of the document afterwards. When the command
    /// fails the document is unchanged but the cursor stays moved.
    pub fn redo(&mut self, doc: &mut SceneDocument, ctx: &ProcessorContext) -> (r: Result<SceneDocument, OperationLogError>)
        requires
            old(self).wf(),
        ensures
            final(self).wf(),
            final(self).entries() == old(self).entries(),
            final(self).max_size() == old(self).max_size(),
            match r {
                Ok(snapshot) => {
                    &&& spec_redo(old(self).entries(), old(self).cursor(), old(doc)@, ctx.types())
                        == Ok::<(int, DocV), LogErrV>((final(self).cursor(), final(doc)@))
                    &&& snapshot@ == final(doc)@
                },
                Err(e) => {
                    &&& spec_redo(old(self).entries(), old(self).cursor(), old(doc)@, ctx.types())
                        == Err::<(int, DocV), LogErrV>(e@)
                    &&& final(doc)@ == old(doc)@
                    &&& final(self).cursor() == if e is CommandFailed {
                        old(self).cursor() + 1
                    } else {
                        old(self).cursor()
                    }
                },
            },
    {
        if !self.history.can_redo() {
            return Err(OperationLogError::NothingToRedo);
        }
        self.history.step_forward();
        let entry = self.history.current();
        let ghost ev = entry@;
        assert(ev == self.entries()[self.cursor()]);
        match apply_with_context(doc, &entry.forward, ctx) {
            Err(e) => Err(OperationLogError::CommandFailed(e)),
            Ok(_) => Ok(clone_document(doc)),
        }
    }

    /// Whether an entry can be undone.
    pub fn can_undo(&self) -> (r: bool)
        ensures
            r == (self.cursor() >= 0),
    {
        self.history.can_undo()
    }

    /// Whether an entry can be redone.
    pub fn can_redo(&self) -> (r: bool)
        requires
            self.wf(),
        ensures
            r == (self.cursor() < self.entries().len() - 1),
    {
        self.history.can_redo()
    }

    /// Number of entries held.
    pub fn get_log_size(&self) -> (r: usize)
        ensures
            r == self.entries().len(),
    {
        self.history.len()
    }

    /// The cursor: -1 before the first entry, else the index of the last applied one.
    pub fn get_cursor(&self) -> (r: isize)
        ensures
            r == self.cursor(),
    {
        self.history.get_cursor()
    }

    /// The entries, oldest first.
    pub fn get_log(&self) -> (r: &[LogEntry])
        ensures
            entries_view(r@) == self.entries(),
    {
        self.history.get_entries().as_slice()
    }

    /// Drop every entry.
    pub fn clear(&mut self)
        ensures
            final(self).wf(),
            final(self).entries() == Seq::<LogEntryV>::empty(),
            final(self).cursor() == -1,
            final(self).max_size() == old(self).max_size(),
    {
        self.history.clear();
        assert(self.entries() =~= Seq::<LogEntryV>::empty());
    }
}

/// How many operations of `c` (nested batches included) touch the entity or instance
/// `id`.
pub open spec fn ops_touching(c: CommandV, id: Seq<char>) -> nat
    decreases c, 1int,
{
    match c {
        CommandV::Noop => 0,
        CommandV::CreateEntity { id: i, .. } => if i == id { 1 } else { 0 },
        CommandV::DeleteEntity { id: i } => if i == id { 1 } else { 0 },
        CommandV::AddComponent { entity_id, .. } => if entity_id == id { 1 } else { 0 },
        CommandV::RemoveComponent { entity_id, .. } => if entity_id == id { 1 } else { 0 },
        CommandV::SetComponentField { entity_id, .. } => if entity_id == id { 1 } else { 0 },
        CommandV::SetComponentFieldOnMultiple { entity_ids, .. } => if entity_ids.contains(id) { 1 } else { 0 },
        CommandV::ReparentEntity { entity_id, .. } => if entity_id == id { 1 } else { 0 },
        CommandV::RenameEntity { entity_id, .. } => if entity_id == id { 1 } else { 0 },
        CommandV::Batch { commands, .. } => ops_touching_all(commands, id, commands.len() as int),
        CommandV::PlaceInstance { instance_id, .. } => if instance_id == id { 1 } else { 0 },
        CommandV::RemoveInstance { instance_id } => if instance_id == id { 1 } else { 0 },
        CommandV::ReplaceInstanceAsset { instance_id, .. } => if instance_id == id { 1 } else { 0 },
        CommandV::UpsertOverride { instance_id, .. } => if instance_id == id { 1 } else { 0 },
        CommandV::RevertOverride { instance_id, .. } => if instance_id == id { 1 } else { 0 },
    }
}

/// The sum of `ops_touching` over the first `n` commands of `cs`.
pub open spec fn ops_touching_all(cs: Seq<CommandV>, id: Seq<char>, n: int) -> nat
    decreases cs, 0int, n,
{
    if n <= 0 || n > cs.len() {
        0
    } else {
        ops_touching_all(cs, id, n - 1) + ops_touching(cs[n - 1], id)
    }
}

/// `n`, capped at the largest `usize`.
pub open spec fn saturated(n: nat) -> nat {
    if n > usize::MAX { usize::MAX as nat } else { n }
}

/// How many operations of `cmd` touch `id`, saturating at the largest `usize`.
pub fn count_ops_touching_stable_id(cmd: &Command, id: &str) -> (r: usize)
    ensures
        r == saturated(ops_touching(cmd@, id@)),
    decreases cmd,
{
    match cmd {
        Command::Noop => 0,
        Command::CreateEntity { id: i, .. } => if str_equal(i.as_str(), id) { 1 } else { 0 },
        Command::DeleteEntity { id: i } => if str_equal(i.as_str(), id) { 1 } else { 0 },
        Command::AddComponent { entity_id, .. } => if str_equal(entity_id.as_str(), id) { 1 } else { 0 },
        Command::RemoveComponent { entity_id, .. } => if str_equal(entity_id.as_str(), id) { 1 } else { 0 },
        Command::SetComponentField { entity_id, .. } => if str_equal(entity_id.as_str(), id) { 1 } else { 0 },
        Command::SetComponentFieldOnMultiple { entity_ids, .. } => {
            let mut k: usize = 0;
            while k < entity_ids.len()
                invariant
                    *cmd is SetComponentFieldOnMultiple,
                    (*cmd)->SetComponentFieldOnMultiple_entity_ids == *entity_ids,
                    k <= entity_ids.len(),
                    forall|j: int| 0 <= j < k ==> entity_ids@[j]@ != id@,
                decreases entity_ids.len() - k,
            {
                if str_equal(entity_ids[k].as_str(), id) {
                    assert(strs_view(entity_ids@)[k as int] == id@);
                    assert(strs_view(entity_ids@).contains(id@));
                    return 1;
                }
                k += 1;
            }
            assert(!strs_view(entity_ids@).contains(id@));
            0
        },
        Command::ReparentEntity { entity_id, .. } => if str_equal(entity_id.as_str(), id) { 1 } else { 0 },
        Command::RenameEntity { entity_id, .. } => if str_equal(entity_id.as_str(), id) { 1 } else { 0 },
        Command::Batch { commands, .. } => {
            let ghost cs = cmd@->Batch_commands;
            let mut total: usize = 0;
            let mut i: usize = 0;
            while i < commands.len()
                invariant
                    (*cmd)->Batch_commands == *commands,
                    *cmd is Batch,
                    cmd@ is Batch,
                    cs == cmd@->Batch_commands,
                    cs.len() == commands@.len(),
                    forall|k: int| 0 <= k < cs.len() ==> cs[k] == (#[trigger] commands@[k])@,
                    i <= commands.len(),
                    total == saturated(ops_touching_all(cs, id@, i as int)),
                decreases commands.len() - i,
            {
                proof {
                    assert(decreases_to!(*cmd => (*cmd)->Batch_commands));
                    assert(decreases_to!((*cmd)->Batch_commands => (*cmd)->Batch_commands@));
                    assert(decreases_to!(cmd => commands@[i as int]));
                }
                let n = count_ops_touching_stable_id(&commands[i], id);
                assert(cs[i as int] == commands@[i as int]@);
                assert(ops_touching_all(cs, id@, i + 1) == ops_touching_all(cs, id@, i as int) + ops_touching(cs[i as int], id@));
                total = total.saturating_add(n);
                i += 1;
            }
            total
        },
        Command::PlaceInstance { instance_id, .. } => if str_equal(instance_id.as_str(), id) { 1 } else { 0 },
        Command::RemoveInstance { instance_id } => if str_equal(instance_id.as_str(), id) { 1 } else { 0 },
        Command::ReplaceInstanceAsset { instance_id, .. } => if str_equal(instance_id.as_str(), id) { 1 } else { 0 },
        Command::UpsertOverride { instance_id, .. } => if str_equal(instance_id.as_str(), id) { 1 } else { 0 },
        Command::RevertOverride { instance_id, .. } => if str_equal(instance_id.as_str(), id) { 1 } else { 0 },
    }
}

/// A summary of one log entry for the recent-changes query.
#[derive(Debug)]
pub struct RecentChangeSummary {
    pub change_id: Option<String>,
    /// Where the change came from (`"Human"`, `"Agent"`, ...).
    pub origin: String,
    /// Who authored the change.
    pub actor: String,
    /// Unix milliseconds when the command was issued.
    pub applied_at: u64,
    /// How many operations of the entry touched the queried id.
    pub ops_touched: usize,
}

/// Model of a summary.
pub struct SummaryV {
    pub change_id: Option<Seq<char>>,
    pub origin: Seq<char>,
    pub actor: Seq<char>,
    pub applied_at: u64,
    pub ops_touched: nat,
}

impl RecentChangeSummary {
    pub open spec fn view(&self) -> SummaryV {
        SummaryV {
            change_id: opt_view(self.change_id),
            origin: self.origin@,
            actor: self.actor@,
            applied_at: self.applied_at,
            ops_touched: self.ops_touched as nat,
        }
    }
}

/// The summary of entry `e` for `id`: a missing origin reads `"Human"` and a missing
/// actor the entry's authorship.
pub open spec fn summary_of(e: LogEntryV, id: Seq<char>) -> SummaryV {
    SummaryV {
        change_id: e.change_id,
        origin: match e.origin { Some(o) => o, None => "Human"@ },
        actor: match e.actor { Some(a) => a, None => e.authorship },
        applied_at: e.timestamp,
        ops_touched: saturated(ops_touching(e.forward, id)),
    }
}

/// Summaries of the entries `lo .. hi` of `es` whose command touches `id`, newest first.
pub open spec fn recent_between(es: Seq<LogEntryV>, id: Seq<char>, lo: int, hi: int) -> Seq<SummaryV>
    decreases hi - lo,
{
    if hi <= lo {
        Seq::empty()
    } else {
        let rest = recent_between(es, id, lo, hi - 1);
        if ops_touching(es[hi - 1].forward, id) > 0 {
            seq![summary_of(es[hi - 1], id)] + rest
        } else {
            rest
        }
    }
}

proof fn lemma_recent_extend_low(es: Seq<LogEntryV>, id: Seq<char>, lo: int, hi: int)
    requires
        0 < lo <= hi,
    ensures
        recent_between(es, id, lo - 1, hi) == recent_between(es, id, lo, hi) + (if ops_touching(es[lo - 1].forward, id) > 0 {
            seq![summary_of(es[lo - 1], id)]
        } else {
            Seq::<SummaryV>::empty()
        }),
    decreases hi - lo,
{
    if hi > lo {
        lemma_recent_extend_low(es, id, lo, hi - 1);
        let tail = if ops_touching(es[lo - 1].forward, id) > 0 {
            seq![summary_of(es[lo - 1], id)]
        } else {
            Seq::<SummaryV>::empty()
        };
        let r = recent_between(es, id, lo, hi - 1);
        if ops_touching(es[hi - 1].forward, id) > 0 {
            assert(seq![summary_of(es[hi - 1], id)] + (r + tail) =~= (seq![summary_of(es[hi - 1], id)] + r) + tail);
        }
    } else {
        assert(recent_between(es, id, lo - 1, hi - 1) =~= Seq::<SummaryV>::empty());
    }
}

impl OperationLog {
    /// Summaries of the entries whose command (or a nested batch command) touches the
    /// entity or instance `stable_id`, most recent first.
    pub fn recent_change_sets_for(&self, stable_id: &str) -> (r: Vec<RecentChangeSummary>)
        ensures
            r@.map_values(|s: RecentChangeSummary| s@) == recent_between(self.entries(), stable_id@, 0, self.entries().len() as int),
    {
        let es = self.history.get_entries();
        let ghost ev = self.entries();
        let mut results: Vec<RecentChangeSummary> = Vec::new();
        let mut i: usize = es.len();
        while i > 0
            invariant
                i <= es.len(),
                ev == entries_view(es@),
                results@.map_values(|s: RecentChangeSummary| s@) == recent_between(ev, stable_id@, i as int, es.len() as int),
            decreases i,
        {
            let e = &es[i - 1];
            assert(e@ == ev[i - 1]);
            let ops = count_ops_touching_stable_id(&e.forward, stable_id);
            let ghost before = results@;
            proof {
                lemma_recent_extend_low(ev, stable_id@, i as int, es.len() as int);
            }
            if ops > 0 {
                let origin = match &e.origin {
                    Some(o) => o.clone(),
                    None => String::from_str("Human"),
                };
                let actor = match &e.actor {
                    Some(a) => a.clone(),
                    None => e.metadata.authorship.clone(),
                };
                let s = RecentChangeSummary {
                    change_id: clone_opt_string(&e.change_id),
                    origin,
                    actor,
                    applied_at: e.metadata.timestamp,
                    ops_touched: ops,
                };
                assert(s@ == summary_of(ev[i - 1], stable_id@));
                results.push(s);
                assert(results@.map_values(|s: RecentChangeSummary| s@) =~= before.map_values(|s: RecentChangeSummary| s@).push(
                    summary_of(ev[i - 1], stable_id@),
                ));
            } else {
                assert(recent_between(ev, stable_id@, i - 1, es.len() as int) =~= recent_between(ev, stable_id@, i as int, es.len() as int));
            }
            i -= 1;
        }
        results
    }
}

/// Undoing the entry at the cursor and then redoing it gives back the document and the
/// cursor, when that entry's command takes the undone document to the current one.
pub proof fn law_undo_then_redo(es: Seq<LogEntryV>, c: int, d: DocV, types: Seq<Seq<char>>)
    requires
        -1 <= c < es.len(),
        spec_undo(es, c, d, types) is Ok,
        spec_apply(spec_undo(es, c, d, types)->Ok_0.1, es[c].forward, types) is Ok,
        spec_apply(spec_undo(es, c, d, types)->Ok_0.1, es[c].forward, types)->Ok_0.0 == d,
    ensures
        spec_redo(es, spec_undo(es, c, d, types)->Ok_0.0, spec_undo(es, c, d, types)->Ok_0.1, types)
            == Ok::<(int, DocV), LogErrV>((c, d)),
{
}

/// Redoing the entry after the cursor and then undoing it gives back the document and
/// the cursor, when the entry's inverse is what applying its command returned and that
/// inverse restores the document.
pub proof fn law_redo_then_undo(es: Seq<LogEntryV>, c: int, d: DocV, types: Seq<Seq<char>>)
    requires
        -1 <= c < es.len() - 1,
        spec_apply(d, es[c + 1].forward, types) is Ok,
        spec_apply(d, es[c + 1].forward, types)->Ok_0.1 == es[c + 1].inverse,
        spec_apply(spec_apply(d, es[c + 1].forward, types)->Ok_0.0, es[c + 1].inverse, types) is Ok,
        spec_apply(spec_apply(d, es[c + 1].forward, types)->Ok_0.0, es[c + 1].inverse, types)->Ok_0.0 == d,
    ensures
        spec_redo(es, c, d, types) is Ok,
        spec_undo(es, spec_redo(es, c, d, types)->Ok_0.0, spec_redo(es, c, d, types)->Ok_0.1, types)
            == Ok::<(int, DocV), LogErrV>((c, d)),
{
}

impl Default for OperationLog {
    /// The same empty log as `new`.
    fn default() -> (r: OperationLog)
        ensures
            r.wf(),
            r.entries() == Seq::<LogEntryV>::empty(),
            r.cursor() == -1,
            r.max_size() == DEFAULT_MAX_LOG_SIZE,
    {
        OperationLog::new()
    }
}

} // verus!
