# wire-repr-macros

The schema logic behind the `WireView` and `WireBuilder` derives, as a
verified library. It holds the rules that decide whether a declaration is a
well-formed wire layout, and the plans the generated code follows. Each is an
executable function with a contract proved by Verus.

## Layout

- `src/`: the verified library.
  - `syntax`, `scalar`, `text`, `bytes`: plain-value models of the
    declaration syntax, scalar types, byte orders, integer and array-element
    byte encodings, and the text operations on names.
  - `attributes`, `normalization`, `schema`: read field attributes and
    normalise declared fields into the layout model (`model`).
  - `validation`, `controller`, `computed`, `geometry`: the layout rules,
    controller roles, the dependency schedule of computed fields and their
    selections, and which field boundaries a view keeps.
  - `frame`: the framing plan of a struct layout (scalars, byte and scalar
    arrays, bounded and rest bytes, bit projections, flags and conditional
    scalars, counted arrays, nested schema types, padding, alignment and
    `at` placement), what a view reads from input (field spans,
    `NeedMore`, constant and value checks, nested frames, validators,
    trailing bytes), what a writer emits (constants, derived lengths, zero
    padding, slot values), and the law that a view reads back what a writer
    wrote.
  - `sizes`: the fixed size a struct view declares, for every layout.
  - `dispatch`: the view plan of a selector enum: the choice of variant from
    the selector, duplicate selectors, the body's extent, trailing bytes,
    the enum's fixed size and leading extent, and what a writer emits for a
    known variant and forwards for the fallback one.
  - `messages`: the text of every refusal.
  - `naming`: generated item names that collide with nothing in the source.
  - `builder`: the typestate slots of a builder, and where each written
    value comes from.
  - `recursive`, `recursive_object`, `recursive_demand`: recursive schemas,
    including which schemas get a recursive-array body.
  - `bitfield`, `enumeration`: nominal bitfields and selector enums.
- `tests/`: tests of the library on concrete declarations and bytes.
- `app/`: the part that needs `syn`, `quote` and `proc_macro2`. It converts
  derive input into the library's model, turns refusals into compiler errors
  at the right spans, and prints the library's plans as tokens: the bitfield
  templates, and the struct frame, struct writer and enum dispatch that
  follow `frame` and `dispatch`.

The plans state what generated code does on the layouts they cover; the
frame of a nested type or of counted items is that type's own, taken as a
report. A computed field reads as a stored scalar, and its writer slot
holds what its callback gives. No plan covers `as` conversions to `isize`
or user types, or constants that are not integer literals.
