# stratus

Loads mods for a game whose files lie in one archive, `data.arc`. The archive's tables say where each
file is, which files share their data, and which packages they are loaded with. The library reads the
tables, patches them so that files can be loaded from elsewhere, and writes them again.

- `src/` is the library, verified with Verus. `archive`, `containers`, `data` and `records` are the
  tables; `share`, `reshare`, `unshare`, `add_files` and `patch` are the steps of patching, and
  `patch_laws` and `load_laws` say what patching keeps and what it brings about. `hash40`,
  `hash_interner`, `hash_list` and `slab_blob` are hashes and the names they stand for, and
  `interned_paths` says what is told of a path from its hash. `discover` and `filesystem`
  are the files of mods, `packages` copies costumes. `res_threads`, `kirby_copy` and `fixes` decide what
  the game is told, and `menu`, `mods_list`, `fonts`, `images`, `uniforms`, `shaders`, `nvn` and
  `gpu_memory` are the logic behind the menu.
- `tests/` runs the library.
- `app/` is the plugin: hooks into the game, file access and drawing.
