# TachTalk

Shift lights for a car, and a proxy for its ELM327 OBD2 dongle. The device polls
the dongle for the engine's speed, lights a LED strip by it, and answers the
commands of other OBD2 programs from what it has polled.

## Layout

- `src/` is the library. It holds the device's rules as functions on plain values:
  the ELM327 commands, the reading of OBD2 answers, the caches and what is polled,
  the LED rules, the capture format, the web interface's answers, the decoder, the
  benchmark and the mock adapters. Verus proves each function against its contract.
- `tests/` runs the library on concrete values.
- `app/` is the program: sockets, threads, clocks, pins and flash.

Functions named `law_..` state what holds across functions: that a capture reads
back as it was written, that every polled PID gets its turn, that blinking LEDs
show what lies underneath.

Calls into other crates stand behind small functions whose contracts are taken as
given. Each says which function it calls and what is claimed of it.
