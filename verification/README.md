# blender_batch_render_helper

The core of a desktop helper that renders Blender files on AWS Batch, written
in Verus and proved against its contracts.

- `src/` is the verified library: the AWS credentials file (reading, writing,
  updating the application's `rndr` profile), the file of environment
  variables, the render job list (ordering and pages), the commands the
  application runs, the checks of the tools it depends on, and the stack
  names it keeps. `src/credentials_laws.rs` holds the proved laws between
  reading and writing the credentials file; the laws of the environment file
  and of sorting stand beside their functions.
- `app/` is the desktop program around it: the window, file and process I/O,
  the AWS SDK calls, CSV reading and the error reporting service.
- `tests/` runs the library on concrete inputs.
