# refx-core

The core of the REFX platform as a Verus-verified library: the task system
with its validated state machine, the in-process event bus, typed
configuration, the service runtime and the platform boundary. The `refxd`
host process lives in `app/`.

## Layout

- `src/task.rs`: task records, the transition table, the task manager.
- `src/event.rs`: the event vocabulary and the fan-out bus.
- `src/runtime.rs`: services, ordered start with rollback, reverse-order stop.
- `src/config.rs`: defaults, the environment override, validation of the log
  filter, and how a load settles on a configuration.
- `src/platform.rs`: OS families and the portable adapter.
- `src/daemon.rs`: the command line of `refxd` and its smoke run.
- `src/text.rs`, `src/seqs.rs`, `src/clock.rs`: text helpers, sequence facts, clock readings.
- `app/`: `refxd` itself: reading the config file (TOML), the environment,
  the machine; installing the logger; printable errors.
- `tests/`: behaviour checks of the library.

Each module states its contracts over mathematical views (`@`), and the
properties the design promises (terminal states are final, completion only
from `Executing`, every subscriber sees every event in order, no
half-started runtime, every stop failure reported) stand as `law_*` proof
functions next to the code they are about.

The bus owns the subscription queues, and a `Subscription` is a handle that
reads its queue through `&mut EventBus`; dropping the handle unsubscribes.
Task operations take the bus they publish to. The `Service` trait carries
specification functions (a service's name, whether it is up, the error it
reported last, the context it was last started with), over which the runtime's contracts say which service gets
which call and what the runtime does with each answer.

A runtime owns its context (configuration, bus, tasks); the context's tasks
publish on its own bus. Dropping a `Runtime` that is still running stops no
service: a host shuts it down with `shutdown` or `shut_down_if_running`, and
`refxd` holds its runtime in a guard that calls the latter when `run` is left
early.
