# opengl_rust

The scene logic behind a set of small OpenGL demos, written in Verus and proved
against its contracts.

`src/` is the verified library:

- `terrain`: triangle-strip index data for a grid terrain patch, its length and
  the cells it covers.
- `chunk`: which terrain chunks to keep loaded around the camera, and what to
  drop and create when the camera moves.
- `lod`: level-of-detail trees over the faces of a planet, their refinement and
  the leaves drawn each frame.
- `polyhedron`: the faces of the regular icosahedron and of the cube.
- `scene_graph`: a scene graph of named nodes and a tree of game objects.
- `texture`: texture roles, sampler uniform names, model directories and the
  texture cache shared by a model's materials.
- `mesh`: index data of quads and of loaded mesh faces.
- `tessellation`: tessellation levels and the control over all of them.
- `controls`: menu toggles, key axes, camera-controller commands, compass
  names and light kinds.

`app/` runs the floating-point side of the demos (transforms, cameras, frustum,
noise heights, materials) on `nalgebra-glm` and `noise`, around the library.
