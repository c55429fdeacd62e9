//! The recorder: turns a stream of resolved focus-change events into
//! per-process focused-time records. Each record is keyed by process name;
//! the elapsed time between two events is credited to the process that was
//! focused in between. The surrounding process receives the events, resolves
//! process ids to names and moves data to and from disk; every decision in
//! between is made here.

use crate::config::recorder_config::RecorderConfig;

use vstd::prelude::*;

verus! {

#[derive(Clone, Debug, PartialEq, Eq)]
pub enum RecorderError {
    /// Resolving the focused process's name failed fatally (carries a
    /// description of the failure).
    GetProcessError(String),
    /// The directory the data file should live in does not exist.
    PathDoesNotExistError(String),
    /// The data file on disk does not parse.
    CsvError(String),
    /// Reading or writing the data file failed.
    FileError(String),
    /// The writer task could not be joined.
    WriteThreadError(String),
    /// The event channel closed without a stop request.
    PidChannelError,
}

/// A focus-change notification as delivered by the window watcher: the
/// process id owning the newly focused window, or nothing when no window is
/// focused.
#[derive(Clone, Copy, Debug, PartialEq, Eq, Structural)]
pub struct FocusEvent {
    pub process_id: Option<u32>,
}

/// A focus-change event after the external name lookup ran.
pub enum ResolvedFocus {
    /// No window is focused.
    NoWindow,
    /// The focused window's owning process, by name.
    Found(String),
    /// The process exited before it could be named; treated as no window.
    Exited,
    /// The lookup failed for any other reason; fatal.
    Failed(String),
}

/// One row of accumulated data: a process name, the seconds it was focused,
/// and whether it currently counts as productive.
#[derive(Clone, Debug, PartialEq, Eq)]
pub struct ProcessRecord {
    pub name: String,
    pub focused_seconds: u64,
    pub is_productive: bool,
}

impl ProcessRecord {
    /// The record as a plain triple of mathematical values.
    pub open spec fn model(&self) -> (Seq<char>, u64, bool) {
        (self.name@, self.focused_seconds, self.is_productive)
    }
}

/// Addition on seconds that stops at the top of the range instead of
/// overflowing.
pub open spec fn sat_add64(a: int, b: int) -> int {
    if a + b > u64::MAX {
        u64::MAX as int
    } else {
        a + b
    }
}

/// The first record of `name`, if any.
pub open spec fn spec_lookup(m: Seq<(Seq<char>, u64, bool)>, name: Seq<char>) -> Option<
    (u64, bool),
>
    decreases m.len(),
{
    if m.len() == 0 {
        None
    } else if m[0].0 == name {
        Some((m[0].1, m[0].2))
    } else {
        spec_lookup(m.drop_first(), name)
    }
}

/// The focused seconds recorded for `name`; zero when there is no record.
pub open spec fn spec_seconds_of(m: Seq<(Seq<char>, u64, bool)>, name: Seq<char>) -> int {
    match spec_lookup(m, name) {
        Some(p) => p.0 as int,
        None => 0,
    }
}

/// Crediting `secs` to `name`: the first record of `name` gains the seconds
/// and takes the given productivity flag; a missing record is appended.
pub open spec fn spec_add(
    m: Seq<(Seq<char>, u64, bool)>,
    name: Seq<char>,
    secs: u64,
    prod: bool,
) -> Seq<(Seq<char>, u64, bool)>
    decreases m.len(),
{
    if m.len() == 0 {
        seq![(name, secs, prod)]
    } else if m[0].0 == name {
        seq![(m[0].0, sat_add64(m[0].1 as int, secs as int) as u64, prod)] + m.drop_first()
    } else {
        seq![m[0]] + spec_add(m.drop_first(), name, secs, prod)
    }
}

/// Names are unique across the records.
pub open spec fn spec_unique_names(m: Seq<(Seq<char>, u64, bool)>) -> bool {
    forall|i: int, j: int| 0 <= i < j < m.len() ==> (#[trigger] m[i]).0 != (#[trigger] m[j]).0
}

/// The per-process accumulator map: records keyed by process name, names
/// unique.
pub struct Accumulator {
    pub records: Vec<ProcessRecord>,
}

impl Accumulator {
    /// The accumulator as a sequence of plain triples.
    pub open spec fn model(&self) -> Seq<(Seq<char>, u64, bool)> {
        self.records@.map_values(|r: ProcessRecord| r.model())
    }

    pub open spec fn wf(&self) -> bool {
        spec_unique_names(self.model())
    }

    pub fn new() -> (a: Accumulator)
        ensures
            a.model() == Seq::<(Seq<char>, u64, bool)>::empty(),
            a.wf(),
    {
        let a = Accumulator { records: Vec::new() };
        proof {
            assert(a.model() =~= Seq::<(Seq<char>, u64, bool)>::empty());
        }
        a
    }

    /// Builds an accumulator from rows, keeping only the first row of each
    /// name, exactly as if each row were credited in order.
    pub fn from_records(rows: Vec<ProcessRecord>) -> (a: Accumulator)
        ensures
            a.wf(),
            a.model() == spec_fold_rows(
                Seq::<(Seq<char>, u64, bool)>::empty(),
                rows@.map_values(|r: ProcessRecord| r.model()),
            ),
    {
        let mut a = Accumulator::new();
        let mut i: usize = 0;
        proof {
            assert(rows@.map_values(|r: ProcessRecord| r.model()).take(0)
                =~= Seq::<(Seq<char>, u64, bool)>::empty());
        }
        while i < rows.len()
            invariant
                i <= rows.len(),
                a.wf(),
                a.model() == spec_fold_rows(
                    Seq::<(Seq<char>, u64, bool)>::empty(),
                    rows@.map_values(|r: ProcessRecord| r.model()).take(i as int),
                ),
            decreases rows.len() - i,
        {
            let ghost rows_m = rows@.map_values(|r: ProcessRecord| r.model());
            let row = &rows[i];
            a.add_data(row.name.clone(), row.focused_seconds, row.is_productive);
            proof {
                lemma_fold_rows_snoc(Seq::<(Seq<char>, u64, bool)>::empty(), rows_m, i as int);
            }
            i += 1;
        }
        proof {
            assert(rows@.map_values(|r: ProcessRecord| r.model()).take(rows@.len() as int)
                =~= rows@.map_values(|r: ProcessRecord| r.model()));
        }
        a
    }

    pub fn records(&self) -> (r: &Vec<ProcessRecord>)
        ensures
            r == self.records,
    {
        &self.records
    }

    pub fn len(&self) -> (n: usize)
        ensures
            n == self.model().len(),
    {
        self.records.len()
    }

    /// The seconds and productivity flag recorded for `name`.
    pub fn get(&self, name: &String) -> (r: Option<(u64, bool)>)
        ensures
            r == spec_lookup(self.model(), name@),
    {
        proof {
            assert(self.model().skip(0) =~= self.model());
        }
        let mut i: usize = 0;
        while i < self.records.len()
            invariant
                i <= self.records.len(),
                forall|k: int| 0 <= k < i ==> (#[trigger] self.model()[k]).0 != name@,
                spec_lookup(self.model(), name@) == spec_lookup(self.model().skip(i as int), name@),
            decreases self.records.len() - i,
        {
            proof {
                assert(self.model()[i as int] == self.records@[i as int].model());
                assert(self.model().skip(i as int)[0] == self.model()[i as int]);
            }
            if self.records[i].name == *name {
                return Some((self.records[i].focused_seconds, self.records[i].is_productive));
            }
            proof {
                assert(self.model().skip(i as int).drop_first() =~= self.model().skip(i as int + 1));
            }
            i += 1;
        }
        proof {
            assert(self.model().skip(self.records@.len() as int).len() == 0);
        }
        None
    }

    /// Credits `time` focused seconds to `name` and sets its productivity
    /// flag, appending a fresh record when the name is new.
    pub fn add_data(&mut self, name: String, time: u64, is_prod: bool)
        ensures
            final(self).model() == spec_add(old(self).model(), name@, time, is_prod),
            old(self).wf() ==> final(self).wf(),
    {
        let ghost m = self.model();
        proof {
            assert(m.take(0) =~= Seq::<(Seq<char>, u64, bool)>::empty());
            assert(m.skip(0) =~= m);
            assert(m.take(0) + spec_add(m.skip(0), name@, time, is_prod) =~= spec_add(
                m,
                name@,
                time,
                is_prod,
            ));
        }
        let mut i: usize = 0;
        while i < self.records.len()
            invariant
                i <= self.records.len(),
                m == self.model(),
                m == old(self).model(),
                forall|k: int| 0 <= k < i ==> (#[trigger] m[k]).0 != name@,
                spec_add(m, name@, time, is_prod) == m.take(i as int) + spec_add(
                    m.skip(i as int),
                    name@,
                    time,
                    is_prod,
                ),
            decreases self.records.len() - i,
        {
            proof {
                assert(m[i as int] == self.records@[i as int].model());
                assert(m.skip(i as int)[0] == m[i as int]);
                assert(m.skip(i as int).drop_first() =~= m.skip(i as int + 1));
            }
            if self.records[i].name == name {
                let updated = ProcessRecord {
                    name,
                    focused_seconds: self.records[i].focused_seconds.saturating_add(time),
                    is_productive: is_prod,
                };
                self.records.set(i, updated);
                proof {
                    assert(self.model() =~= m.take(i as int) + (seq![
                        (m[i as int].0, sat_add64(m[i as int].1 as int, time as int) as u64, is_prod),
                    ] + m.skip(i as int + 1)));
                    lemma_add_preserves_unique(m, name@, time, is_prod);
                }
                return ;
            }
            proof {
                assert(m.take(i as int).push(m[i as int]) =~= m.take(i as int + 1));
                assert(m.take(i as int) + (seq![m[i as int]] + spec_add(
                    m.skip(i as int + 1),
                    name@,
                    time,
                    is_prod,
                )) =~= m.take(i as int + 1) + spec_add(m.skip(i as int + 1), name@, time, is_prod));
            }
            i += 1;
        }
        let fresh = ProcessRecord { name, focused_seconds: time, is_productive: is_prod };
        self.records.push(fresh);
        proof {
            assert(m.skip(m.len() as int).len() == 0);
            assert(self.model() =~= m.take(m.len() as int) + seq![(name@, time, is_prod)]);
            assert(m.take(m.len() as int) =~= m);
            lemma_add_preserves_unique(m, name@, time, is_prod);
        }
    }
}

/// Crediting a row never breaks the uniqueness of names.
proof fn lemma_add_preserves_unique(
    m: Seq<(Seq<char>, u64, bool)>,
    name: Seq<char>,
    secs: u64,
    prod: bool,
)
    ensures
        spec_unique_names(m) ==> spec_unique_names(spec_add(m, name, secs, prod)),
        spec_add(m, name, secs, prod).map_values(|t: (Seq<char>, u64, bool)| t.0)
            =~= if spec_lookup(m, name) is Some {
            m.map_values(|t: (Seq<char>, u64, bool)| t.0)
        } else {
            m.map_values(|t: (Seq<char>, u64, bool)| t.0).push(name)
        },
    decreases m.len(),
{
    let names = |t: (Seq<char>, u64, bool)| t.0;
    if m.len() == 0 {
        assert(spec_add(m, name, secs, prod).map_values(names) =~= m.map_values(names).push(name));
    } else if m[0].0 == name {
        assert(spec_add(m, name, secs, prod).map_values(names) =~= m.map_values(names));
    } else {
        lemma_add_preserves_unique(m.drop_first(), name, secs, prod);
        let rec = spec_add(m.drop_first(), name, secs, prod);
        assert(spec_add(m, name, secs, prod).map_values(names) =~= seq![m[0].0] + rec.map_values(
            names,
        ));
        assert(m.map_values(names) =~= seq![m[0].0] + m.drop_first().map_values(names));
        if spec_unique_names(m) {
            assert(forall|i: int, j: int|
                0 <= i < j < m.drop_first().len() ==> (#[trigger] m.drop_first()[i]).0
                    != (#[trigger] m.drop_first()[j]).0);
            assert(forall|i: int|
                0 <= i < m.drop_first().len() ==> (#[trigger] m.drop_first()[i]).0 != m[0].0);
            assert(forall|i: int|
                0 <= i < rec.len() ==> #[trigger] rec.map_values(names)[i] == rec[i].0);
            assert(forall|i: int| 0 <= i < rec.len() ==> (#[trigger] rec[i]).0 != m[0].0) by {
                lemma_add_names(m.drop_first(), name, secs, prod);
            }
            assert(spec_unique_names(spec_add(m, name, secs, prod)));
        }
    }
}

/// Every name in the credited sequence is an old name or the credited one.
proof fn lemma_add_names(m: Seq<(Seq<char>, u64, bool)>, name: Seq<char>, secs: u64, prod: bool)
    ensures
        forall|i: int|
            0 <= i < spec_add(m, name, secs, prod).len() ==> (#[trigger] spec_add(
                m,
                name,
                secs,
                prod,
            )[i]).0 == name || exists|j: int| 0 <= j < m.len() && (#[trigger] m[j]).0 == spec_add(
                m,
                name,
                secs,
                prod,
            )[i].0,
    decreases m.len(),
{
    if m.len() == 0 {
    } else if m[0].0 == name {
    } else {
        lemma_add_names(m.drop_first(), name, secs, prod);
        let rec = spec_add(m.drop_first(), name, secs, prod);
        assert forall|i: int| 0 <= i < spec_add(m, name, secs, prod).len() implies (
        #[trigger] spec_add(m, name, secs, prod)[i]).0 == name || exists|j: int|
            0 <= j < m.len() && (#[trigger] m[j]).0 == spec_add(m, name, secs, prod)[i].0 by {
            if i == 0 {
                assert(m[0].0 == spec_add(m, name, secs, prod)[0].0);
            } else {
                assert(spec_add(m, name, secs, prod)[i] == rec[i - 1]);
                if rec[i - 1].0 != name {
                    let j = choose|j: int|
                        0 <= j < m.drop_first().len() && (#[trigger] m.drop_first()[j]).0 == rec[i
                            - 1].0;
                    assert(m[j + 1].0 == rec[i - 1].0);
                }
            }
        }
    }
}

/// Folding rows into an accumulator one by one, front to back.
pub open spec fn spec_fold_rows(
    m: Seq<(Seq<char>, u64, bool)>,
    rows: Seq<(Seq<char>, u64, bool)>,
) -> Seq<(Seq<char>, u64, bool)>
    decreases rows.len(),
{
    if rows.len() == 0 {
        m
    } else {
        spec_fold_rows(spec_add(m, rows[0].0, rows[0].1, rows[0].2), rows.drop_first())
    }
}

proof fn lemma_fold_rows_snoc(
    m: Seq<(Seq<char>, u64, bool)>,
    rows: Seq<(Seq<char>, u64, bool)>,
    i: int,
)
    requires
        0 <= i < rows.len(),
    ensures
        spec_fold_rows(m, rows.take(i + 1)) == spec_add(
            spec_fold_rows(m, rows.take(i)),
            rows[i].0,
            rows[i].1,
            rows[i].2,
        ),
    decreases i,
{
    if i == 0 {
        assert(rows.take(1).len() == 1);
        assert(rows.take(1).drop_first() =~= rows.take(0));
        assert(rows.take(1)[0] == rows[0]);
        assert(rows.take(0).len() == 0);
        assert(spec_fold_rows(m, rows.take(0)) == m);
        assert(spec_fold_rows(m, rows.take(1)) == spec_fold_rows(
            spec_add(m, rows[0].0, rows[0].1, rows[0].2),
            rows.take(1).drop_first(),
        ));
        assert(spec_fold_rows(m, rows.take(1)) == spec_add(m, rows[0].0, rows[0].1, rows[0].2));
    } else {
        let m2 = spec_add(m, rows[0].0, rows[0].1, rows[0].2);
        assert(rows.take(i + 1).len() == i + 1);
        assert(rows.take(i + 1)[0] == rows[0]);
        assert(rows.take(i + 1).drop_first() =~= rows.drop_first().take(i));
        assert(spec_fold_rows(m, rows.take(i + 1)) == spec_fold_rows(
            m2,
            rows.drop_first().take(i),
        ));
        lemma_fold_rows_snoc(m2, rows.drop_first(), i - 1);
        assert(rows.take(i).len() == i);
        assert(rows.take(i)[0] == rows[0]);
        assert(rows.take(i).drop_first() =~= rows.drop_first().take(i - 1));
        assert(spec_fold_rows(m, rows.take(i)) == spec_fold_rows(
            m2,
            rows.drop_first().take(i - 1),
        ));
        assert(rows.drop_first()[i - 1] == rows[i]);
    }
}

/// Whether `name` is on the configured productive list.
pub fn contains_name(list: &Vec<String>, name: &String) -> (r: bool)
    ensures
        r == list.deep_view().contains(name@),
{
    let mut i: usize = 0;
    while i < list.len()
        invariant
            i <= list.len(),
            forall|k: int| 0 <= k < i ==> #[trigger] list.deep_view()[k] != name@,
        decreases list.len() - i,
    {
        proof {
            assert(list.deep_view()[i as int] == list@[i as int]@);
        }
        if list[i] == *name {
            proof {
                assert(exists|j: int|
                    0 <= j < list.deep_view().len() && list.deep_view()[j] == name@) by {
                    assert(list.deep_view()[i as int] == name@);
                }
            }
            return true;
        }
        i += 1;
    }
    proof {
        assert(list.deep_view().len() == list@.len());
    }
    false
}

/// The name held by an optional current process, as a mathematical value.
pub open spec fn spec_opt_name(o: Option<String>) -> Option<Seq<char>> {
    match o {
        Some(s) => Some(s@),
        None => None,
    }
}

/// What one event step tells the surrounding process to do: the productivity
/// value to publish for the alerter, and whether a flush of the accumulated
/// data is due.
#[derive(Clone, Copy, Debug, PartialEq, Eq, Structural)]
pub struct EventOutcome {
    pub publish_productive: bool,
    pub write_now: bool,
}

/// The recorder's whole state between two focus-change events.
pub struct Recorder {
    pub config: RecorderConfig,
    pub share_dir: String,
    pub prev_proc: Option<String>,
    pub curr_proc: Option<String>,
    pub since_write: u64,
    pub proc_times: Accumulator,
}

impl Recorder {
    pub open spec fn wf(&self) -> bool {
        self.proc_times.wf()
    }

    /// A recorder over an already-loaded accumulator, with no process focused
    /// yet and a fresh write clock.
    pub fn new(share: String, conf: RecorderConfig, proc_times: Accumulator) -> (rec: Recorder)
        ensures
            rec.share_dir == share,
            rec.config == conf,
            rec.proc_times == proc_times,
            rec.prev_proc is None,
            rec.curr_proc is None,
            rec.since_write == 0,
    {
        Recorder {
            config: conf,
            share_dir: share,
            prev_proc: None,
            curr_proc: None,
            since_write: 0,
            proc_times,
        }
    }

    /// One step of the recorder loop: takes the resolved focus-change event
    /// and the wall-clock seconds elapsed since the previous event, credits
    /// the elapsed time to the process that was focused in between, and says
    /// what to publish and whether to flush. A fatal lookup failure changes
    /// nothing and is returned as the error.
    pub fn handle_event(&mut self, event: ResolvedFocus, elapsed: u64) -> (r: Result<
        EventOutcome,
        RecorderError,
    >)
        ensures
            r is Err <==> event is Failed,
            match r {
                Err(e) => {
                    &&& *final(self) == *old(self)
                    &&& match event {
                        ResolvedFocus::Failed(msg) => e == RecorderError::GetProcessError(msg),
                        _ => false,
                    }
                },
                Ok(out) => {
                    let prods = old(self).config.productive.deep_view();
                    let credited = old(self).curr_proc is Some;
                    let sw = sat_add64(old(self).since_write as int, elapsed as int);
                    &&& final(self).config == old(self).config
                    &&& final(self).share_dir == old(self).share_dir
                    &&& final(self).prev_proc == old(self).curr_proc
                    &&& spec_opt_name(final(self).curr_proc) == (match event {
                        ResolvedFocus::Found(n) => Some(n@),
                        _ => None::<Seq<char>>,
                    })
                    &&& out.publish_productive == (match event {
                        ResolvedFocus::Found(n) => prods.contains(n@),
                        _ => false,
                    })
                    &&& final(self).proc_times.model() == (if credited {
                        spec_add(
                            old(self).proc_times.model(),
                            old(self).curr_proc->0@,
                            elapsed,
                            prods.contains(old(self).curr_proc->0@),
                        )
                    } else {
                        old(self).proc_times.model()
                    })
                    &&& if credited && sw >= old(self).config.write_delay {
                        out.write_now && final(self).since_write == 0
                    } else {
                        !out.write_now && final(self).since_write == sw
                    }
                    &&& old(self).wf() ==> final(self).wf()
                },
            },
    {
        let new_curr: Option<String> = match event {
            ResolvedFocus::Failed(msg) => {
                return Err(RecorderError::GetProcessError(msg));
            },
            ResolvedFocus::Found(name) => Some(name),
            ResolvedFocus::NoWindow => None,
            ResolvedFocus::Exited => None,
        };
        let publish = match &new_curr {
            Some(n) => contains_name(&self.config.productive, n),
            None => false,
        };
        self.since_write = self.since_write.saturating_add(elapsed);
        let mut tmp = new_curr;
        core::mem::swap(&mut self.curr_proc, &mut tmp);
        let mut write_now = false;
        if let Some(prev_name) = &tmp {
            let prod = contains_name(&self.config.productive, prev_name);
            let pname = prev_name.clone();
            self.proc_times.add_data(pname, elapsed, prod);
            if self.since_write >= self.config.write_delay {
                write_now = true;
                self.since_write = 0;
            }
        }
        self.prev_proc = tmp;
        Ok(EventOutcome { publish_productive: publish, write_now })
    }
}

/// A sequence of resolved events with inter-arrival delays, as mathematical
/// values.
pub open spec fn spec_events_model(v: Seq<(Option<String>, u64)>) -> Seq<(Option<Seq<char>>, u64)> {
    v.map_values(|e: (Option<String>, u64)| (spec_opt_name(e.0), e.1))
}

/// The sum of the delays credited to `name`: a delay counts when `name` was
/// the process focused when that delay started, that is, the process carried
/// by the previous event (`curr` before the first event).
pub open spec fn spec_prev_sum(
    curr: Option<Seq<char>>,
    events: Seq<(Option<Seq<char>>, u64)>,
    name: Seq<char>,
) -> int
    decreases events.len(),
{
    if events.len() == 0 {
        0
    } else {
        (if curr == Some(name) {
            events[0].1 as int
        } else {
            0
        }) + spec_prev_sum(events[0].0, events.drop_first(), name)
    }
}

/// The accumulator after replaying `events` over `m`, starting with `curr`
/// focused: each event credits its delay to the process focused before it.
pub open spec fn spec_replay(
    m: Seq<(Seq<char>, u64, bool)>,
    curr: Option<Seq<char>>,
    events: Seq<(Option<Seq<char>>, u64)>,
    prods: Seq<Seq<char>>,
) -> Seq<(Seq<char>, u64, bool)>
    decreases events.len(),
{
    if events.len() == 0 {
        m
    } else {
        let m2 = match curr {
            Some(n) => spec_add(m, n, events[0].1, prods.contains(n)),
            None => m,
        };
        spec_replay(m2, events[0].0, events.drop_first(), prods)
    }
}

/// Crediting time to a name raises exactly that name's seconds and touches no
/// other record.
proof fn lemma_lookup_add(m: Seq<(Seq<char>, u64, bool)>, name: Seq<char>, secs: u64, prod: bool)
    ensures
        spec_lookup(spec_add(m, name, secs, prod), name) == Some(
            (sat_add64(spec_seconds_of(m, name), secs as int) as u64, prod),
        ),
        forall|other: Seq<char>|
            other != name ==> spec_lookup(spec_add(m, name, secs, prod), other) == spec_lookup(
                m,
                other,
            ),
    decreases m.len(),
{
    let a = spec_add(m, name, secs, prod);
    if m.len() == 0 {
        assert(a == seq![(name, secs, prod)]);
        assert(a.drop_first() =~= Seq::<(Seq<char>, u64, bool)>::empty());
        assert forall|other: Seq<char>| other != name implies spec_lookup(
            spec_add(m, name, secs, prod),
            other,
        ) == spec_lookup(m, other) by {
            assert(spec_lookup(a, other) == spec_lookup(a.drop_first(), other));
            assert(spec_lookup(a.drop_first(), other) is None);
            assert(spec_lookup(m, other) is None);
        }
    } else if m[0].0 == name {
        assert(a.drop_first() =~= m.drop_first());
        assert(a[0] == (m[0].0, sat_add64(m[0].1 as int, secs as int) as u64, prod));
        assert forall|other: Seq<char>| other != name implies spec_lookup(
            spec_add(m, name, secs, prod),
            other,
        ) == spec_lookup(m, other) by {
            assert(spec_lookup(a, other) == spec_lookup(a.drop_first(), other));
            assert(spec_lookup(m, other) == spec_lookup(m.drop_first(), other));
        }
    } else {
        lemma_lookup_add(m.drop_first(), name, secs, prod);
        assert(a[0] == m[0]);
        assert(a.drop_first() =~= spec_add(m.drop_first(), name, secs, prod));
        assert forall|other: Seq<char>| other != name implies spec_lookup(
            spec_add(m, name, secs, prod),
            other,
        ) == spec_lookup(m, other) by {
            if other != m[0].0 {
                assert(spec_lookup(spec_add(m.drop_first(), name, secs, prod), other)
                    == spec_lookup(m.drop_first(), other));
                assert(spec_lookup(a, other) == spec_lookup(a.drop_first(), other));
                assert(spec_lookup(m, other) == spec_lookup(m.drop_first(), other));
            } else {
                assert(spec_lookup(a, other) == Some((m[0].1, m[0].2)));
                assert(spec_lookup(m, other) == Some((m[0].1, m[0].2)));
            }
        }
    }
}

/// No delay counts negatively.
proof fn lemma_prev_sum_nonneg(
    curr: Option<Seq<char>>,
    events: Seq<(Option<Seq<char>>, u64)>,
    name: Seq<char>,
)
    ensures
        0 <= spec_prev_sum(curr, events, name),
    decreases events.len(),
{
    if events.len() > 0 {
        lemma_prev_sum_nonneg(events[0].0, events.drop_first(), name);
    }
}

proof fn lemma_replay_seconds(
    m: Seq<(Seq<char>, u64, bool)>,
    curr: Option<Seq<char>>,
    events: Seq<(Option<Seq<char>>, u64)>,
    prods: Seq<Seq<char>>,
    name: Seq<char>,
)
    requires
        spec_seconds_of(m, name) + spec_prev_sum(curr, events, name) <= u64::MAX,
    ensures
        spec_seconds_of(spec_replay(m, curr, events, prods), name) == spec_seconds_of(m, name)
            + spec_prev_sum(curr, events, name),
    decreases events.len(),
{
    if events.len() > 0 {
        lemma_prev_sum_nonneg(events[0].0, events.drop_first(), name);
        match curr {
            Some(n) => {
                lemma_lookup_add(m, n, events[0].1, prods.contains(n));
                let m2 = spec_add(m, n, events[0].1, prods.contains(n));
                if n == name {
                    assert(spec_seconds_of(m2, name) == spec_seconds_of(m, name) + events[0].1);
                } else {
                    assert(spec_seconds_of(m2, name) == spec_seconds_of(m, name));
                }
                lemma_replay_seconds(m2, events[0].0, events.drop_first(), prods, name);
            },
            None => {
                lemma_replay_seconds(m, events[0].0, events.drop_first(), prods, name);
            },
        }
    }
}

/// Starting from an empty accumulator and nothing focused, replaying a
/// sequence of focus events leaves, for every process name, exactly the sum
/// of the delays during which that process was the previously focused one --
/// provided that sum fits in the counter. The replayed accumulator is a pure
/// function of the events, so two recorders fed the same sequence agree.
pub proof fn lemma_recorder_totals(
    events: Seq<(Option<Seq<char>>, u64)>,
    prods: Seq<Seq<char>>,
    name: Seq<char>,
)
    requires
        spec_prev_sum(None, events, name) <= u64::MAX,
    ensures
        spec_seconds_of(
            spec_replay(Seq::<(Seq<char>, u64, bool)>::empty(), None, events, prods),
            name,
        ) == spec_prev_sum(None, events, name),
{
    lemma_replay_seconds(
        Seq::<(Seq<char>, u64, bool)>::empty(),
        None,
        events,
        prods,
        name,
    );
}

/// Feeds a whole event sequence with its delays through a fresh recorder and
/// hands back the resulting accumulator state.
pub fn replay_events(conf: RecorderConfig, events: &Vec<(Option<String>, u64)>) -> (rec: Recorder)
    ensures
        rec.wf(),
        rec.config == conf,
        rec.proc_times.model() == spec_replay(
            Seq::<(Seq<char>, u64, bool)>::empty(),
            None,
            spec_events_model(events@),
            conf.productive.deep_view(),
        ),
{
    let ghost full = spec_events_model(events@);
    let ghost prods = conf.productive.deep_view();
    let mut rec = Recorder::new(String::new(), conf, Accumulator::new());
    let mut i: usize = 0;
    proof {
        assert(full.skip(0) =~= full);
    }
    while i < events.len()
        invariant
            i <= events.len(),
            full == spec_events_model(events@),
            prods == rec.config.productive.deep_view(),
            rec.config == conf,
            rec.wf(),
            spec_replay(Seq::<(Seq<char>, u64, bool)>::empty(), None, full, prods) == spec_replay(
                rec.proc_times.model(),
                spec_opt_name(rec.curr_proc),
                full.skip(i as int),
                prods,
            ),
        decreases events.len() - i,
    {
        proof {
            assert(full[i as int] == (spec_opt_name(events@[i as int].0), events@[i as int].1));
            assert(full.skip(i as int)[0] == full[i as int]);
            assert(full.skip(i as int).drop_first() =~= full.skip(i as int + 1));
        }
        let (o, d) = &events[i];
        let ev = match o {
            Some(s) => ResolvedFocus::Found(s.clone()),
            None => ResolvedFocus::NoWindow,
        };
        let elapsed: u64 = *d;
        let r = rec.handle_event(ev, elapsed);
        match r {
            Ok(_) => {},
            Err(_) => {
                proof {
                    assert(false);
                }
            },
        }
        i += 1;
    }
    proof {
        assert(full.skip(events@.len() as int).len() == 0);
    }
    rec
}

} // verus!
