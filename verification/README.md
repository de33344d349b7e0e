# unsafety_hook

Inline, mid-function and vtable hooks for 32-bit x86 processes on Windows, with the
decisions verified in [Verus](https://github.com/verus-lang/verus).

- **Inline hooks** put a jump to a detour over the start of a function and give the address
  of a trampoline that still runs the function. Where the target is a near call, the call
  is pointed at the detour instead.
- **Mid-function hooks** hand the registers at an instruction to a detour, which may change
  them.
- **Vtable hooks** replace an entry of an object's vtable.

## Layout

`src/` is the library. It does not touch the process that it hooks: each operation is a
machine that asks for one thing at a time (`system::Request`), is told what came of it
(`system::Reply`), and in the end says what the outcome is. What a machine asks and how it
goes on is its contract.

| module | what it holds |
| --- | --- |
| `word` | 32-bit words that wrap around, and their bytes |
| `kernel` | thread contexts |
| `system` | requests, replies, and a model of a process in which they are carried out |
| `memory` | access to protected memory, modules, searching for patterns |
| `x86::code` | branches, relocation, trampolines, the code of mid-function hooks |
| `x86::prologue` | which instructions a hook displaces |
| `x86::processor`, `x86::resume`, `x86::passage` | what the processor makes of the code of hooks |
| `x86::threads` | suspending, locating and resuming the other threads |
| `x86::redirect`, `x86::patch`, `x86::install` | installing a hook in code |
| `x86::vtable` | installing a hook in a vtable |
| `x86::remove`, `x86::registry` | removing hooks, and the list of those installed |
| `x86::effect`, `x86::chain`, `x86::undo` | what installing does to a process, how hooks chain, and what removing undoes |
| `x86::context` | the registers and flags that a detour gets |

The public proof functions, whose names start with `law_`, state what holds of the library
as a whole: that a relocated branch leads where it led, that an installed hook takes effect
and changes nothing else, that the other threads are suspended and elsewhere while an inline
or mid-function hook is written, that inline hooks on one target chain, that removing hooks,
newest first, undoes installing them, also where they lie on top of each other. They follow a
thread, too: from a hooked target to the detour, out of a trampoline, and through the code of
a mid-function hook, where the detour gets the registers and the thread goes on with what it
left in them, whatever the displaced instructions are.

A detour that changes the instruction pointer has it kept in the memory of the hook until the
displaced instructions have run. Passes for which it is changed to different addresses must
not overlap, in several threads or in one.

## What is taken on trust

The length of an instruction comes from the `lde` crate (`x86::prologue`); its contract is
believed. The laws on processes and threads are proved of two models that are written down
here, of a process (`system::World`) and of the instructions that hooks are made of
(`x86::processor`): that Windows and the processor behave as they say is not checked. The
protection of memory is modelled for each range that is asked for, not for pages.

`app/` carries the requests out through the Windows API and offers the hooks as functions.
`tests/` runs the library in a simulated process.
