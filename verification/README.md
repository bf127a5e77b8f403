# calyx_interp

An interpreter for hardware programs made of components, cells, groups and a
control program, written in Verus. The library lays a program out, evaluates its
assignments and primitives until they settle, steps its control program and
reports what it holds; its contracts say what each of these does, and Verus
proves them.

- `src/context.rs`, `src/validate.rs`: programs, and when they are valid
- `src/layout.rs`, `src/environment/`: laying a program out, reporting it
- `src/fabric.rs`: what evaluation, clock edges and steps mean
- `src/environment/simulator/`: doing them
- `src/behaviour.rs`: what holds of them, and of whole runs, for every program
- `src/control.rs`: where the program is and what follows
- `src/ports.rs`, `src/primitive.rs`, `src/values.rs`, `src/rational.rs`: what
  ports carry and cells compute
- `src/serialization.rs`, `src/json.rs`, `src/text.rs`: the state of cells,
  arranged for output
- `app/`: printing, serializing and running a program to its end
- `tests/`: the library on concrete programs
