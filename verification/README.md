# monad_composition

Monad composition patterns for agent pipelines, verified with Verus.

The library in `src/` provides concrete monads (`Identity`, `Maybe`, `Writer`,
`State`, `Reader`), a stacked `MaybeWriter`, and pipelines that chain agent
steps. Step functions are ordinary Rust closures or function pointers; every
runner states, as its contract, exactly which results the run may produce in
terms of what its step functions may return, and the contracts are proved.

Modules:

- `identity`: `Identity`, the monad laws (as spec lemmas and as executable
  checkers whose results are proved true for deterministic functions), and
  `AgentPipeline` with its trace relation, determinism and composition laws.
- `maybe`: `Maybe` (variants `Just` / `Nothing`), its laws, and short-circuiting
  `AgentMaybe` pipelines.
- `writer`: `Writer`, its laws, `sequence`, and logging `AgentWriter` pipelines.
- `state`: `State` (runnable `pure` and `bind`, the monad laws), `AgentState` pipelines that thread a `StringMap` through
  their steps, and `state_get` / `state_put` / `state_modify`.
- `reader`: `Reader` (runnable `pure` and `map`, the monad laws), `AgentReader` pipelines over a read-only configuration,
  and the `config_*` helpers.
- `composition`: `MaybeWriter` and its laws, `StateMaybeStep` pipelines, and the
  general `Pipeline` with its Kleisli composition law.
- `string_map`: `StringMap`, the string-to-string map used for state and
  configuration, viewed as a `Map<Seq<char>, Seq<char>>`.
- `text`: string concatenation and joining used for messages and logs.

`app/` holds serde-serializable records of the data types and conversions to
and from them. `tests/` exercises the library on concrete values.
