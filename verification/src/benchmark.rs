//! The state of one pass through a plan and the decisions of a run.

use crate::config::HarrawConfig;
use crate::service::HarrawStep;
use crate::text::{decimal_text, hrw_decimal};
use crate::value::push_all;
use crate::value::{field, find_field, path_segments, Value, ValueView};
use crate::value::{hrw_path_segments, lemma_path_segments_nonempty};
use crate::text::{chars_of, string_of};
use vstd::prelude::*;

verus! {

/// A plan after expansion: its steps, in the order in which a pass executes them.
pub type Benchmark = Vec<HarrawStep>;

/// The variables of one pass through a plan, by name.
#[derive(Debug, PartialEq)]
pub struct Context {
    /// The bindings; where a name occurs twice, the later entry counts.
    pub entries: Vec<(String, Value)>,
}

/// The map that a list of bindings stands for.
pub open spec fn table(fields: Seq<(Seq<char>, ValueView)>) -> Map<Seq<char>, ValueView>
    decreases fields.len(),
{
    if fields.len() == 0 {
        Map::empty()
    } else {
        table(fields.drop_last()).insert(fields.last().0, fields.last().1)
    }
}

/// `table` and `field` agree on every key.
pub proof fn lemma_table_field(fields: Seq<(Seq<char>, ValueView)>, key: Seq<char>)
    ensures
        table(fields).contains_key(key) <==> field(fields, key) is Some,
        field(fields, key) is Some ==> table(fields)[key] == field(fields, key)->0,
    decreases fields.len(),
{
    if fields.len() > 0 {
        lemma_table_field(fields.drop_last(), key);
    }
}

proof fn lemma_table_update(
    fields: Seq<(Seq<char>, ValueView)>,
    i: int,
    key: Seq<char>,
    value: ValueView,
)
    requires
        0 <= i < fields.len(),
        fields[i].0 == key,
        forall|j: int| i < j < fields.len() ==> (#[trigger] fields[j]).0 != key,
    ensures
        table(fields.update(i, (key, value))) == table(fields).insert(key, value),
    decreases fields.len(),
{
    let changed = fields.update(i, (key, value));
    if i == fields.len() - 1 {
        assert(changed.drop_last() =~= fields.drop_last());
        assert(table(changed) =~= table(fields).insert(key, value));
    } else {
        assert(fields[fields.len() - 1].0 != key);
        assert(changed.drop_last() =~= fields.drop_last().update(i, (key, value)));
        assert forall|j: int| i < j < fields.drop_last().len() implies (
        #[trigger] fields.drop_last()[j]).0 != key by {
            assert(fields.drop_last()[j] == fields[j]);
        }
        lemma_table_update(fields.drop_last(), i, key, value);
        assert(table(changed) =~= table(fields).insert(key, value));
    }
}

impl View for Context {
    type V = Map<Seq<char>, ValueView>;

    open spec fn view(&self) -> Map<Seq<char>, ValueView> {
        table(self.entries.deep_view())
    }
}

/// The value that `path` names in a context: the first segment is a variable's
/// name, the others lead into its value.
pub open spec fn looked_up(context: Map<Seq<char>, ValueView>, path: Seq<char>) -> Option<
    ValueView,
> {
    let segments = path_segments(path);
    if context.contains_key(segments[0]) {
        context[segments[0]].descend(segments.drop_first())
    } else {
        None
    }
}

impl Context {
    /// A context without variables.
    pub fn new() -> (context: Context)
        ensures
            context@ == Map::<Seq<char>, ValueView>::empty(),
    {
        let context = Context { entries: Vec::new() };
        assert(context.entries.deep_view() =~= Seq::empty());
        context
    }

    /// Binds `key` to `value`, in place of an earlier binding of `key`.
    pub fn insert(&mut self, key: String, value: Value)
        ensures
            final(self)@ == old(self)@.insert(key@, value@),
    {
        let ghost before = self.entries.deep_view();
        match find_field(&self.entries, key.as_str()) {
            Some(i) => {
                proof {
                    assert forall|j: int| i < j < before.len() implies (#[trigger] before[j]).0
                        != key@ by {
                        assert(self.entries@[j].0@ != key@);
                    }
                    lemma_table_update(before, i as int, key@, value@);
                }
                self.entries.set(i, (key, value));
                assert(self.entries.deep_view() =~= before.update(i as int, (key@, value@)));
            },
            None => {
                self.entries.push((key, value));
                assert(self.entries.deep_view() =~= before.push((key@, value@)));
                assert(self.entries.deep_view().drop_last() =~= before);
            },
        }
    }

    /// The value bound to `key`.
    pub fn get(&self, key: &str) -> (r: Option<&Value>)
        ensures
            r.deep_view() == (if self@.contains_key(key@) {
                Some(self@[key@])
            } else {
                None
            }),
    {
        proof {
            lemma_table_field(self.entries.deep_view(), key@);
        }
        match find_field(&self.entries, key) {
            Some(i) => Some(&self.entries[i].1),
            None => None,
        }
    }

    /// The value that `path` names, if there is one.
    pub fn lookup(&self, path: &str) -> (r: Option<&Value>)
        ensures
            r.deep_view() == looked_up(self@, path@),
    {
        let chars = chars_of(path);
        let segments = hrw_path_segments(&chars);
        proof {
            lemma_path_segments_nonempty(path@);
        }
        let first = string_of(&segments[0]);
        assert(first@ == path_segments(path@)[0]);
        let mut current: &Value = match self.get(first.as_str()) {
            Some(v) => v,
            None => {
                return None;
            },
        };
        let ghost all = path_segments(path@);
        let ghost root = self@[all[0]];
        let mut i: usize = 1;
        assert(all.skip(1) =~= all.drop_first());
        while i < segments.len()
            invariant
                1 <= i <= segments.len(),
                segments.deep_view() == all,
                looked_up(self@, path@) == current@.descend(all.skip(i as int)),
            decreases segments.len() - i,
        {
            assert(all.skip(i as int)[0] == segments@[i as int]@);
            assert(all.skip(i as int).drop_first() =~= all.skip(i as int + 1));
            match current.child(&segments[i]) {
                Some(next) => {
                    current = next;
                },
                None => {
                    return None;
                },
            }
            i += 1;
        }
        assert(all.skip(i as int) =~= Seq::<Seq<char>>::empty());
        Some(current)
    }
}

/// `num_cpus::get`: the number of processors that the machine offers, which is at
/// least one.
#[verifier::external_body]
pub(crate) fn hrw_cpus() -> (n: usize)
    ensures
        n >= 1,
{
    num_cpus::get()
}

/// The number of worker threads for a run: the number of processors, but no more
/// than the run's concurrency.
pub open spec fn worker_threads(cpus: usize, concurrency: i64) -> int {
    if concurrency < 0 || cpus <= concurrency {
        cpus as int
    } else {
        concurrency as int
    }
}

/// The number of worker threads for a run on a machine with `cpus` processors.
pub fn hrw_threads_for(cpus: usize, concurrency: i64) -> (threads: usize)
    ensures
        threads == worker_threads(cpus, concurrency),
{
    if concurrency < 0 || (cpus as u64) <= (concurrency as u64) {
        cpus
    } else {
        concurrency as usize
    }
}

/// The number of worker threads for a run on this machine: that of a machine with
/// some number of processors, at least one.
pub fn hrw_threads(config: &HarrawConfig) -> (threads: usize)
    ensures
        exists|cpus: usize| cpus >= 1 && threads == #[trigger] worker_threads(cpus, config.concurrency),
{
    let cpus = hrw_cpus();
    let threads = hrw_threads_for(cpus, config.concurrency);
    assert(threads == worker_threads(cpus, config.concurrency));
    threads
}

/// What a run does with an expanded plan.
#[derive(Debug, Clone, Copy, PartialEq, Eq, Structural)]
pub enum HarrawRun {
    /// The plan has no steps: there is nothing to run, which the operator is told.
    Empty,
    /// One pass, with the iteration index 0; its reports are written to a file.
    /// Concurrency and the number of iterations are left aside.
    Report,
    /// The passes with the indices `0` to `iterations - 1`, at most `concurrency`
    /// of them at a time.
    Iterate { iterations: i64, concurrency: i64 },
}

/// What a run does with a plan of `steps` steps.
pub open spec fn run_of(config: HarrawConfig, report_mode: bool, steps: nat) -> HarrawRun {
    if steps == 0 {
        HarrawRun::Empty
    } else if report_mode {
        HarrawRun::Report
    } else {
        HarrawRun::Iterate { iterations: config.iterations, concurrency: config.concurrency }
    }
}

/// Decides what a run does with the expanded plan.
pub fn hrw_execute(config: &HarrawConfig, report_mode: bool, benchmark: &Vec<HarrawStep>) -> (run:
    HarrawRun)
    ensures
        run == run_of(*config, report_mode, benchmark@.len()),
{
    if benchmark.len() == 0 {
        HarrawRun::Empty
    } else if report_mode {
        HarrawRun::Report
    } else {
        HarrawRun::Iterate { iterations: config.iterations, concurrency: config.concurrency }
    }
}

/// The seconds that the pass with the index `iteration` waits before its first
/// step: the ramp-up window divided by the number of iterations, times the index.
pub open spec fn rampup_delay(rampup: i64, iterations: i64, iteration: i64) -> int {
    if rampup > 0 {
        (rampup / iterations) * iteration
    } else {
        0
    }
}

/// The context with which every pass begins: `iterations` is bound to the pass's
/// index in decimal notation, `base` to the configured base URL.
pub open spec fn seeded(base: Seq<char>, iteration: i64) -> Map<Seq<char>, ValueView> {
    Map::<Seq<char>, ValueView>::empty().insert(
        "iterations"@,
        ValueView::Text(decimal_text(iteration as int)),
    ).insert("base"@, ValueView::Text(base))
}

/// How the pass with the index `iteration` begins: the seconds to wait, and the
/// context for its steps.
pub fn hrw_run_iteration(config: &HarrawConfig, iteration: i64) -> (start: (u64, Context))
    requires
        config.rampup > 0 ==> config.iterations > 0 && 0 <= iteration <= config.iterations,
    ensures
        start.0 == rampup_delay(config.rampup, config.iterations, iteration),
        start.1@ == seeded(config.base@, iteration),
{
    let seconds: u64 = if config.rampup > 0 {
        let delay = config.rampup / config.iterations;
        assert(0 <= delay * iteration <= config.rampup) by (nonlinear_arith)
            requires
                0 <= iteration <= config.iterations,
                config.iterations > 0,
                config.rampup > 0,
                delay == config.rampup / config.iterations,
        ;
        (delay * iteration) as u64
    } else {
        0
    };
    let mut context = Context::new();
    context.insert("iterations".to_owned(), Value::Text(hrw_decimal(iteration)));
    context.insert("base".to_owned(), Value::Text(config.base.clone()));
    (seconds, context)
}

/// The texts of `list` in one, with `sep` between them; no separator follows an
/// empty beginning.
pub open spec fn joined_text(list: Seq<Seq<char>>, sep: Seq<char>) -> Seq<char>
    decreases list.len(),
{
    if list.len() == 0 {
        Seq::empty()
    } else {
        let before = joined_text(list.drop_last(), sep);
        if before.len() > 0 {
            before + sep + list.last()
        } else {
            list.last()
        }
    }
}

/// Joins the texts of `l`, with `sep` between them.
pub fn hrw_join(l: &Vec<String>, sep: &str) -> (s: String)
    ensures
        s@ == joined_text(l.deep_view(), sep@),
{
    let separator = chars_of(sep);
    let mut out: Vec<char> = Vec::new();
    let mut i: usize = 0;
    assert(l.deep_view().take(0) =~= Seq::<Seq<char>>::empty());
    while i < l.len()
        invariant
            i <= l.len(),
            separator@ == sep@,
            out@ == joined_text(l.deep_view().take(i as int), sep@),
        decreases l.len() - i,
    {
        let ghost before = out@;
        let ghost next = l.deep_view().take(i as int + 1);
        assert(next.drop_last() =~= l.deep_view().take(i as int));
        assert(next.last() == l@[i as int]@);
        if out.len() > 0 {
            push_all(&mut out, &separator);
        }
        push_all(&mut out, &chars_of(l[i].as_str()));
        assert(before.len() == 0 ==> out@ =~= l@[i as int]@);
        i += 1;
    }
    assert(l.deep_view().take(i as int) =~= l.deep_view());
    string_of(&out)
}

} // verus!
