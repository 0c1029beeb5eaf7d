# autokeyboardlayot_core

The platform-independent core of a keyboard-layout correction agent, verified
with Verus.

- `src/` is the verified library: text helpers, language-pack identifiers,
  privacy policy, user lexicons, settings (parser and serializer with a proved
  round trip), the dictionary detector, the in-memory input session, keyboard
  profile resolution (a step machine driven by a probe), decisions that
  the agent takes around its platform calls (key routing, the correction
  gate, the keyboard hook callback, the UI Automation text barrier, the
  protected paste, the conversion and undo pipelines as step functions,
  the worker's dispatch of queued events, the hotkey's choice between undo
  and forced conversion, the layout cycle's next target) and its synthetic
  key replays,
  the tray badge modes, the naming and integrity rules of the package store,
  the encoding of the package-signing key, and validation of scoring models.
- The platform calls themselves (hook installation, UI Automation,
  clipboard, window messages, the message loop) are not part of this
  crate; the step functions take what they report as events and name the
  next call as an action. Not every decision of the agent is here: how the
  worker applies each routed key to its state, and the package store's
  commit and rollback, are not.
- `tests/` exercises the library through its public API.
- `app/` holds what the verified core cannot: serde decoding of scoring
  documents, the floating-point rasterizer of the tray badge, and the file
  operations of the package store.
