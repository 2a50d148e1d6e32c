//! The decisions of a supervision run: which process identifiers are known,
//! what the snapshot of them reads, what is logged, and how the control loop
//! reacts to child completions and to the interrupt signal.
use vstd::prelude::*;
use crate::config::{string_views, Cmd};
use crate::text::{decimal, push_char, push_decimal};

verus! {

/// `items` joined by `sep`.
pub open spec fn join(items: Seq<Seq<char>>, sep: Seq<char>) -> Seq<char>
    decreases items.len(),
{
    if items.len() == 0 {
        seq![]
    } else if items.len() == 1 {
        items[0]
    } else {
        join(items.drop_last(), sep) + sep + items.last()
    }
}

/// The decimal forms of `pids`.
pub open spec fn pid_decimals(pids: Seq<u32>) -> Seq<Seq<char>> {
    pids.map_values(|p: u32| decimal(p as nat))
}

/// The snapshot of `pids`: the list in brackets, items separated by `, `,
/// followed by a line break (`[12, 345]\n`).
pub open spec fn snapshot_of(pids: Seq<u32>) -> Seq<char> {
    seq!['['] + join(pid_decimals(pids), seq![',', ' ']) + seq![']', '\n']
}

/// The process identifiers of the children spawned in one run, in the order
/// their spawns completed. Entries are only ever appended.
pub struct PidRegistry {
    pids: Vec<u32>,
}

impl View for PidRegistry {
    type V = Seq<u32>;

    closed spec fn view(&self) -> Seq<u32> {
        self.pids@
    }
}

impl PidRegistry {
    /// A registry with no entries.
    pub fn new() -> (r: Self)
        ensures
            r@ == Seq::<u32>::empty(),
    {
        PidRegistry { pids: Vec::new() }
    }

    /// Records the identifier of a child whose spawn completed.
    pub fn record(&mut self, pid: u32)
        ensures
            final(self)@ == old(self)@.push(pid),
    {
        self.pids.push(pid);
    }

    /// The recorded identifiers, oldest first.
    pub fn pids(&self) -> (r: Vec<u32>)
        ensures
            r@ == self@,
    {
        self.pids.clone()
    }

    /// The number of recorded identifiers.
    pub fn len(&self) -> (r: usize)
        ensures
            r == self@.len(),
    {
        self.pids.len()
    }

    /// The text persisted as the run's snapshot.
    pub fn snapshot(&self) -> (r: String)
        ensures
            r@ == snapshot_of(self@),
    {
        let mut s = String::new();
        push_char(&mut s, '[');
        let ghost ds = pid_decimals(self.pids@);
        let mut i: usize = 0;
        while i < self.pids.len()
            invariant
                ds == pid_decimals(self.pids@),
                i <= self.pids@.len(),
                s@ == seq!['['] + join(ds.take(i as int), seq![',', ' ']),
            decreases self.pids@.len() - i,
        {
            if i > 0 {
                push_char(&mut s, ',');
                push_char(&mut s, ' ');
            }
            push_decimal(&mut s, self.pids[i] as u64);
            proof {
                let t = ds.take(i + 1);
                assert(t.drop_last() =~= ds.take(i as int));
                assert(t.last() == decimal(self.pids@[i as int] as nat));
                assert(s@ =~= seq!['['] + join(t, seq![',', ' ']));
            }
            i = i + 1;
        }
        assert(ds.take(self.pids@.len() as int) =~= ds);
        push_char(&mut s, ']');
        push_char(&mut s, '\n');
        assert(s@ =~= snapshot_of(self.pids@));
        s
    }
}

/// Each item of a joined sequence stands in the joined text.
pub proof fn lemma_join_holds_item(items: Seq<Seq<char>>, sep: Seq<char>, i: int)
    requires
        0 <= i < items.len(),
    ensures
        exists|k: int|
            0 <= k && k + items[i].len() <= join(items, sep).len() && #[trigger] join(
                items,
                sep,
            ).subrange(k, k + items[i].len()) == items[i],
    decreases items.len(),
{
    let j = join(items, sep);
    if items.len() == 1 {
        assert(j.subrange(0, items[i].len() as int) =~= items[i]);
        assert(j.subrange(0int, 0int + items[i].len()) == items[i]);
    } else if i == items.len() - 1 {
        let k: int = (join(items.drop_last(), sep).len() + sep.len()) as int;
        assert(j.subrange(k, k + items[i].len()) =~= items[i]);
        assert(0 <= k && k + items[i].len() <= j.len() && j.subrange(k, k + items[i].len())
            == items[i]);
    } else {
        let head = items.drop_last();
        lemma_join_holds_item(head, sep, i);
        let k = choose|k: int|
            0 <= k && k + head[i].len() <= join(head, sep).len() && #[trigger] join(
                head,
                sep,
            ).subrange(k, k + head[i].len()) == head[i];
        assert(head[i] == items[i]);
        assert(j == join(head, sep) + sep + items.last());
        assert(j.subrange(k, k + items[i].len()) =~= join(head, sep).subrange(
            k,
            k + items[i].len(),
        ));
        assert(0 <= k && k + items[i].len() <= j.len() && j.subrange(k, k + items[i].len())
            == items[i]);
    }
}

/// The snapshot names every recorded process identifier: the decimal form of
/// each stands in the snapshot text.
pub proof fn law_snapshot_names_every_pid(pids: Seq<u32>, i: int)
    requires
        0 <= i < pids.len(),
    ensures
        exists|k: int|
            0 <= k && k + decimal(pids[i] as nat).len() <= snapshot_of(pids).len()
                && #[trigger] snapshot_of(pids).subrange(k, k + decimal(pids[i] as nat).len())
                == decimal(pids[i] as nat),
{
    let ds = pid_decimals(pids);
    let sep = seq![',', ' '];
    let d = decimal(pids[i] as nat);
    assert(ds[i] == d);
    lemma_join_holds_item(ds, sep, i);
    let k = choose|k: int|
        0 <= k && k + ds[i].len() <= join(ds, sep).len() && #[trigger] join(ds, sep).subrange(
            k,
            k + ds[i].len(),
        ) == ds[i];
    let snap = snapshot_of(pids);
    assert(snap.subrange(k + 1, k + 1 + d.len()) =~= join(ds, sep).subrange(k, k + d.len()));
    assert(0 <= k + 1 && k + 1 + d.len() <= snap.len() && snap.subrange(k + 1, k + 1 + d.len())
        == d);
}

/// Where the snapshot is written, relative to the home directory.
pub open spec fn snapshot_name() -> Seq<char> {
    seq!['/', '.', 'r', 'm', 'a', 'n', '.', 'p', 'i', 'd', 's']
}

/// The path of the snapshot file under the home directory `home`.
pub fn snapshot_path(home: &str) -> (r: String)
    ensures
        r@ == home@ + snapshot_name(),
{
    proof {
        reveal_strlit("/.rman.pids");
        assert("/.rman.pids"@ =~= snapshot_name());
    }
    let mut r = String::from_str(home);
    r.append("/.rman.pids");
    r
}

/// The start of a launch line.
pub open spec fn running_prefix() -> Seq<char> {
    seq!['r', 'u', 'n', 'n', 'i', 'n', 'g', ' ', '[']
}

/// The line logged when `c` is launched:
/// `running [<name>]: <program> <args joined by a space>`.
pub open spec fn launch_line(c: crate::config::CmdView) -> Seq<char> {
    running_prefix() + c.name + seq![']', ':', ' '] + c.program + seq![' '] + join(
        c.args,
        seq![' '],
    )
}

/// The line logged when the command `c` is launched.
pub fn launch_message(c: &Cmd) -> (r: String)
    ensures
        r@ == launch_line(c@),
{
    proof {
        reveal_strlit("running [");
        reveal_strlit("]: ");
        assert("running ["@ =~= running_prefix());
        assert("]: "@ =~= seq![']', ':', ' ']);
    }
    let mut s = String::from_str("running [");
    s.append(c.name.as_str());
    s.append("]: ");
    s.append(c.cmd.as_str());
    push_char(&mut s, ' ');
    let ghost head = s@;
    let ghost args = string_views(c.args@);
    let mut i: usize = 0;
    while i < c.args.len()
        invariant
            args == string_views(c.args@),
            i <= c.args@.len(),
            s@ == head + join(args.take(i as int), seq![' ']),
        decreases c.args@.len() - i,
    {
        if i > 0 {
            push_char(&mut s, ' ');
        }
        s.append(c.args[i].as_str());
        proof {
            let t = args.take(i + 1);
            assert(t.drop_last() =~= args.take(i as int));
            assert(t.last() == c.args@[i as int]@);
            assert(s@ =~= head + join(t, seq![' ']));
        }
        i = i + 1;
    }
    assert(args.take(c.args@.len() as int) =~= args);
    s
}

/// The start of a shutdown line.
pub open spec fn shutdown_prefix() -> Seq<char> {
    seq![
        'a', 't', 't', 'e', 'm', 'p', 't', 'i', 'n', 'g', ' ', 'g', 'r', 'a', 'c', 'e', 'f', 'u',
        'l', ' ', 's', 'h', 'u', 't', 'd', 'o', 'w', 'n', ' ', 'o', 'f', ' ',
    ]
}

/// The end of a shutdown line.
pub open spec fn processes_suffix() -> Seq<char> {
    seq![' ', 'p', 'r', 'o', 'c', 'e', 's', 's', 'e', 's']
}

/// The line logged when an interrupt finds `n` tasks still outstanding:
/// `attempting graceful shutdown of <n> processes`.
pub fn shutdown_message(n: usize) -> (r: String)
    ensures
        r@ == shutdown_prefix() + decimal(n as nat) + processes_suffix(),
{
    proof {
        reveal_strlit("attempting graceful shutdown of ");
        reveal_strlit(" processes");
        assert("attempting graceful shutdown of "@ =~= shutdown_prefix());
        assert(" processes"@ =~= processes_suffix());
    }
    let mut s = String::from_str("attempting graceful shutdown of ");
    push_decimal(&mut s, n as u64);
    s.append(" processes");
    s
}

/// What the control loop observed.
#[derive(Debug, Clone, Copy, PartialEq, Eq, Structural)]
pub enum LoopEvent {
    /// One supervised task completed.
    TaskFinished,
    /// The interrupt signal arrived.
    Interrupted,
}

/// What the control loop does next.
#[derive(Debug, Clone, Copy, PartialEq, Eq, Structural)]
pub enum LoopAction {
    /// Keep waiting for the next event.
    Wait,
    /// Leave the loop: nothing is left running.
    Exit,
    /// Terminate the given number of still-running tasks, then leave the loop.
    Shutdown(usize),
}

/// State of the control loop: how many supervised tasks have not completed,
/// and whether the loop has acted on its final event.
#[derive(Debug, Clone, Copy, PartialEq, Eq, Structural)]
pub struct ControlLoop {
    pub outstanding: usize,
    pub stopped: bool,
}

/// One step of the control loop on `(outstanding, stopped)`: the next state
/// and the action. An interrupt shuts down whatever is outstanding; the last
/// completion ends the run; once stopped, the loop only exits.
pub open spec fn loop_step(outstanding: nat, stopped: bool, e: LoopEvent) -> (nat, bool, LoopAction) {
    if stopped {
        (outstanding, true, LoopAction::Exit)
    } else {
        match e {
            LoopEvent::Interrupted => (outstanding, true, LoopAction::Shutdown(outstanding as usize)),
            LoopEvent::TaskFinished => if outstanding <= 1 {
                (0, true, LoopAction::Exit)
            } else {
                ((outstanding - 1) as nat, false, LoopAction::Wait)
            },
        }
    }
}

impl ControlLoop {
    /// The loop of a run that started `tasks` supervised tasks; with none, it
    /// is stopped from the start.
    pub fn new(tasks: usize) -> (r: Self)
        ensures
            r.outstanding == tasks,
            r.stopped == (tasks == 0),
    {
        ControlLoop { outstanding: tasks, stopped: tasks == 0 }
    }

    /// Reacts to `e`.
    pub fn step(&mut self, e: LoopEvent) -> (r: LoopAction)
        ensures
            (final(self).outstanding as nat, final(self).stopped, r) == loop_step(
                old(self).outstanding as nat,
                old(self).stopped,
                e,
            ),
    {
        if self.stopped {
            return LoopAction::Exit;
        }
        match e {
            LoopEvent::Interrupted => {
                self.stopped = true;
                LoopAction::Shutdown(self.outstanding)
            },
            LoopEvent::TaskFinished => {
                if self.outstanding <= 1 {
                    self.outstanding = 0;
                    self.stopped = true;
                    LoopAction::Exit
                } else {
                    self.outstanding = self.outstanding - 1;
                    LoopAction::Wait
                }
            },
        }
    }
}

/// An interrupt ends the run: a loop that has not stopped answers it by
/// shutting down every outstanding task and stops, and a stopped loop answers
/// every later event by exiting, unchanged.
pub proof fn law_interrupt_ends_run(outstanding: usize, e: LoopEvent)
    ensures
        loop_step(outstanding as nat, false, LoopEvent::Interrupted) == (
            outstanding as nat,
            true,
            LoopAction::Shutdown(outstanding),
        ),
        loop_step(outstanding as nat, true, e) == (outstanding as nat, true, LoopAction::Exit),
{
}

/// Completions alone end the run after the last of them: from `n` outstanding
/// tasks, each completion but the last leaves the loop waiting with one task
/// fewer, and the last one exits.
pub proof fn law_last_completion_exits(n: nat)
    requires
        n >= 1,
    ensures
        n == 1 ==> loop_step(n, false, LoopEvent::TaskFinished) == (0nat, true, LoopAction::Exit),
        n > 1 ==> loop_step(n, false, LoopEvent::TaskFinished) == ((n - 1) as nat, false, LoopAction::Wait),
{
}

} // verus!
