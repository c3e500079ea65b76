# wgpu_mc_core

The deciding parts of the wgpu-mc renderer's native side, as verified functions: what the JVM
hands over is read, checked and turned into plans, and the contracts say exactly what comes out.

`src/` is the verified library:

- `section` reads the section payloads the JVM writes, keeps the world's sections and light, and
  resolves the 27 sections a bake reads;
- `blaze`, `bind_groups` and `vertex` number a pipeline's bindings, fold a draw's bindings into
  bind group keys and dynamic offsets, cache bind groups, and lay out vertex buffers;
- `preprocessing` holds the rules the shader rewriting follows (texel fetches, shim names,
  implicit uniform blocks);
- `shader_cache` keys and canonicalises the processed shader cache;
- `settings` and `debug` are the options screen's settings and schema, and the debug switches;
- `device`, `copies`, `quarantine`, `timing`, `pix`, `bake` and `adapter` are the decisions around
  surfaces, textures, copies, closed buffers, GPU timing, captures, the bake queue and the
  adapter's description;
- `blockstate` and `entity` read blockstate variant keys and lay out entity textures.

`app/` is the code around it that touches the file system: the config file, the processed shader
cache's files, the marker files and the state the JVM's calls share.
