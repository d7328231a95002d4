# lib

The semantic checking core of a compiler, written in Verus: the type
store and its operations, and the rules by which expressions, patterns and
declarations are typed. Every function states its behaviour in `requires` and
`ensures` and is proved against it.

## Layout

- `ty`, `ty_tree`, `matching`, `substitute`, `unify`, `ty_props`, `render`: the
  store of types, what a type denotes, type matching, substitution,
  unification, properties of types and how they are shown.
- `expr`, `pats`, `pat_bind`, `const_eval`: expressions and patterns as
  stores of nodes, binding patterns against types, and compile-time
  evaluation.
- `checking`: the checker's state (binding types, schemes, gated bindings,
  compile-time values, member facts, diagnostics, scopes) and the steps that
  check `let`s, binary operators, dot calls, `pin`s and pattern bindings,
  and instantiate schemes.
- `lets`, `binary_types`, `dot_callable`, `records`, `members`, `call_args`,
  `array_lit`, `prefix`, `assign`, `pins`, `literals`, `layout`: the rules
  those steps use.
- `surface`, `surface_lower`, `surface_import`, `data_*`, `shape_*`,
  `effect_surface`, `value_export`, `import_records`: module surfaces, how
  types, data definitions, shapes and values are exported into them and
  imported back, with the round trips proved.
- `target`, `attrs`, `ffi`: the compilation target and the attributes that
  depend on it.
- `text`, `name_set`, `text_map`, `subst_map`: text, ordered name sets, maps
  keyed by text, and substitutions.

The checker walks expressions itself: each step in `checking` takes what
checking the sub-expressions gave, and returns what the caller is to do next.

The tests under `tests/` run the library on concrete inputs.
