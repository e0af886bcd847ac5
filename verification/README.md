# luna_linker

Control, media and watermark tooling for the Insta360 Luna Ultra camera and the Mic Pro
microphone.

- `src/` is the library, verified with Verus: the UCD2 framing and checksum, protobuf field
  access, the camera commands and the events they answer, the control session's state
  (request matching, state waits, the capture-mode gate), the paged media listing and
  deletion plans, the older HTTP directory listings (rows found by `regex`), media URL validation, hex dumps and raw frame dumps, the older client
  messages, the watermark catalogue and placement tables, the frame pixels (tinting,
  emboldening, colour samples), the virtual camera's NV12 conversion and frame channel
  header, downloads' file names, transfer control and device profile summaries.
- `app/` is the command-line program around it: sockets, HTTP, files, FFmpeg, image
  decoding and drawing, EXIF, JSON and threads.
- `tests/` exercises the library on captured frames and concrete values.
