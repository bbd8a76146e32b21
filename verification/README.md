# b3d2glb

Converts Blitz3D `.b3d` models to glTF 2.0 (`.glb`, or `.gltf` with separate files).

- `src/` is the verified library (Verus). It reads B3D files (`b3d_format` states the
  format as spec functions, `b3d_parser` reads exactly that), extracts joints, mesh and
  clips (`b3d`, `writer::extract_model`), and plans the pieces of the glTF output
  (`writer`): buffer contents, buffer views and accessors, nodes, primitives, skin,
  materials, animation channels and their layout, and the GLB container. It also works
  out texture names, search paths and the PNG conversion of texture files (`texture`)
  and reads the command line (`cli`). Floats are carried as their IEEE-754 bit
  patterns; the library moves and compares them but does no arithmetic on them.
- `app/` is ordinary Rust around it: the float math (quaternions, matrices, normals,
  animation times), the assembly of the glTF JSON document from the library's plans,
  files and texture caching, and the environment's arguments.
- `tests/` runs the library on concrete inputs.
