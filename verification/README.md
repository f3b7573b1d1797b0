# systems_toolkit

Three small systems programs whose decisions are verified with Verus.

- `deet`: a debugger for traced processes. The library holds the command loop, the tasks on the
  traced process (writing a byte, waiting, restarting, launching, listing the call chain), the
  reading of breakpoint places and every line of output. `deet::session` states what holds of the
  process over a whole session: no breakpoint is missed, and the program's code is kept. This is
  said of breakpoints in code that the process does not itself write to, and two cases are excepted:
  a restart that breaks off halfway through a breakpoint because a call fails or the process dies,
  and a breakpoint that is set again while its own trap stands in the process. `deet::commands`
  states which lines are obeyed, what commands do to the table of breakpoints, and how the debugger
  is left.
- `balancebeam`: an HTTP load balancer. The library holds the search for an upstream, the rate
  limiter, the rounds of health checks and the service of one client.
- `parallel_map`: applying a function to every item of a vector on several threads. The library
  hands out the items and puts the results in place.

Everything that reads or writes the outside world is asked for: a step takes the outcome of the last
request and returns the next one. `app/` performs the requests. It leaves open, as traits, how debug
information is read (`DebugInfo`), how words become commands (`CommandParser`) and how HTTP is spoken
on a stream (`Wire`).

What the proofs rest on without proof stands in `deet::system` (names of signals and errors),
`balancebeam::upstream` (random numbers), `balancebeam::health` (building a request) and
`text::number` (`String::push`).
