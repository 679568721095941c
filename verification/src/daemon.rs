//! Decisions of the `refxd` host process: its command line, and the smoke
//! run that drives one task through its lifecycle.

use vstd::prelude::*;
use vstd::string::*;

use crate::event::{lemma_publishes_append, EventView};
use crate::runtime::Runtime;
use crate::task::{transition_events, Priority, TaskError, TaskId, TaskState, SOURCE};
use crate::text::{is_whitespace, lemma_trim_empty_iff_blank, same_text};

verus! {

/// What the command line asks for.
#[derive(Debug, Clone, PartialEq, Eq)]
pub enum Command {
    /// Run with this config file, optionally only the smoke run.
    Run { config: String, smoke: bool },
    /// Print usage and exit successfully.
    Help,
}

/// The outcome of parsing `args` when the options read so far chose
/// `config` and `smoke`: `Some` to run, `None` for help, or an error message.
pub open spec fn parse_outcome(args: Seq<Seq<char>>, config: Seq<char>, smoke: bool) -> Result<Option<(Seq<char>, bool)>, Seq<char>>
    decreases args.len(),
{
    if args.len() == 0 {
        Ok(Some((config, smoke)))
    } else if args[0] == "--config"@ {
        if args.len() < 2 {
            Err("--config requires a path"@)
        } else {
            parse_outcome(args.skip(2), args[1], smoke)
        }
    } else if args[0] == "--smoke"@ {
        parse_outcome(args.drop_first(), config, true)
    } else if args[0] == "-h"@ || args[0] == "--help"@ {
        Ok(None)
    } else {
        Err("unknown argument `"@ + args[0] + "`"@)
    }
}

/// The value of a parsed command line.
pub open spec fn command_view(r: Result<Command, String>) -> Result<Option<(Seq<char>, bool)>, Seq<char>> {
    match r {
        Ok(Command::Run { config, smoke }) => Ok(Some((config@, smoke))),
        Ok(Command::Help) => Ok(None),
        Err(e) => Err(e@),
    }
}

/// Parse `refxd [--config <path>] [--smoke] [-h|--help]` (arguments after the program name).
pub fn parse_args(args: &Vec<String>) -> (r: Result<Command, String>)
    ensures
        command_view(r) == parse_outcome(args@.map_values(|s: String| s@), "refx.toml"@, false),
{
    let ghost all = args@.map_values(|s: String| s@);
    let mut config = String::from_str("refx.toml");
    let mut smoke = false;
    let mut i: usize = 0;
    assert(all.skip(0) =~= all);
    while i < args.len()
        invariant
            0 <= i <= args@.len(),
            all == args@.map_values(|s: String| s@),
            parse_outcome(all, "refx.toml"@, false) == parse_outcome(all.skip(i as int), config@, smoke),
        decreases args@.len() - i,
    {
        let a = args[i].as_str();
        let ghost rest = all.skip(i as int);
        assert(rest[0] == a@);
        if same_text(a, "--config") {
            if i + 1 >= args.len() {
                return Err(String::from_str("--config requires a path"));
            }
            config = args[i + 1].clone();
            assert(rest.skip(2) =~= all.skip(i + 2));
            assert(rest[1] == config@);
            i = i + 2;
        } else if same_text(a, "--smoke") {
            smoke = true;
            assert(rest.drop_first() =~= all.skip(i + 1));
            i = i + 1;
        } else if same_text(a, "-h") || same_text(a, "--help") {
            return Ok(Command::Help);
        } else {
            let mut message = String::from_str("unknown argument `");
            message.append(a);
            message.append("`");
            return Err(message);
        }
    }
    assert(all.skip(i as int) =~= Seq::<Seq<char>>::empty());
    Ok(Command::Run { config, smoke })
}

/// Run one task through `Created -> Queued -> Executing -> Completed` on the
/// runtime's task manager. The task cannot end in any other state.
pub fn smoke_test(runtime: &mut Runtime) -> (r: Result<(), TaskError>)
    requires
        old(runtime)@.tasks.len() + 1 < usize::MAX,
    ensures
        r is Ok,
        final(runtime)@.tasks.len() == old(runtime)@.tasks.len() + 1,
        final(runtime)@.tasks.drop_last() == old(runtime)@.tasks,
        final(runtime)@.tasks.last().state == TaskState::Completed,
        final(runtime)@.tasks.last().user_request == "smoke test"@,
        final(runtime)@.tasks.last().priority == Priority::Low,
        final(runtime)@.tasks.last().history.len() == 3,
        final(runtime)@.tasks.last().history[0].from == TaskState::Created,
        final(runtime)@.tasks.last().history[0].to == TaskState::Queued,
        final(runtime)@.tasks.last().history[1].to == TaskState::Executing,
        final(runtime)@.tasks.last().history[2].to == TaskState::Completed,
        forall|i: int| 0 <= i < 3 ==> #[trigger] final(runtime)@.tasks.last().history[i].reason == Some("smoke"@),
        final(runtime)@.tasks.last().started is Some,
        final(runtime)@.tasks.last().completed is Some,
        old(runtime)@.bus.publishes(
            SOURCE@,
            seq![
                EventView::TaskCreated { id: TaskId((old(runtime)@.tasks.len() + 1) as u64) },
                EventView::TaskStateChanged {
                    id: TaskId((old(runtime)@.tasks.len() + 1) as u64),
                    from: TaskState::Created,
                    to: TaskState::Queued,
                },
                EventView::TaskStateChanged {
                    id: TaskId((old(runtime)@.tasks.len() + 1) as u64),
                    from: TaskState::Queued,
                    to: TaskState::Executing,
                },
                EventView::TaskStateChanged {
                    id: TaskId((old(runtime)@.tasks.len() + 1) as u64),
                    from: TaskState::Executing,
                    to: TaskState::Completed,
                },
                EventView::TaskCompleted { id: TaskId((old(runtime)@.tasks.len() + 1) as u64) },
            ],
            final(runtime)@.bus,
        ),
        final(runtime)@.names == old(runtime)@.names,
        final(runtime)@.running == old(runtime)@.running,
        final(runtime)@.state == old(runtime)@.state,
{
    let ctx = runtime.context_mut();
    proof {
        reveal_strlit("smoke test");
        let s = "smoke test"@;
        assert(s[0] == 's');
        assert(!is_whitespace(s[0]));
        lemma_trim_empty_iff_blank(s);
    }
    let ghost b0 = ctx.bus@;
    let id = ctx.create_task("smoke test", Priority::Low)?;
    let ghost b1 = ctx.bus@;
    ctx.transition_task(id, TaskState::Queued, Some("smoke"))?;
    let ghost b2 = ctx.bus@;
    ctx.transition_task(id, TaskState::Executing, Some("smoke"))?;
    let ghost b3 = ctx.bus@;
    ctx.transition_task(id, TaskState::Completed, Some("smoke"))?;
    proof {
        let created = seq![EventView::TaskCreated { id }];
        let q = transition_events(id, TaskState::Created, TaskState::Queued);
        let e = transition_events(id, TaskState::Queued, TaskState::Executing);
        let c = transition_events(id, TaskState::Executing, TaskState::Completed);
        lemma_publishes_append(b0, b1, b2, SOURCE@, created, q);
        lemma_publishes_append(b0, b2, b3, SOURCE@, created + q, e);
        lemma_publishes_append(b0, b3, ctx.bus@, SOURCE@, created + q + e, c);
        assert(created + q + e + c =~= seq![
            EventView::TaskCreated { id },
            EventView::TaskStateChanged { id, from: TaskState::Created, to: TaskState::Queued },
            EventView::TaskStateChanged { id, from: TaskState::Queued, to: TaskState::Executing },
            EventView::TaskStateChanged { id, from: TaskState::Executing, to: TaskState::Completed },
            EventView::TaskCompleted { id },
        ]);
        reveal_strlit("smoke");
    }
    Ok(())
}

} // verus!
