# gcamview

A full-screen viewer for RTSP cameras that switches to a camera when an MQTT
broker reports a person on it, and can wake the screen and speak a phrase.

- `src/` is the verified library (Verus): the configuration and its defaults,
  camera labels and button order, the filter for detection events, the shell
  commands run on a detection, and the decisions of the viewer window.
- `app/` is the program around it: reading `config.toml`, the GTK window, the
  GStreamer pipelines, the MQTT connection and running the shell commands.
- `tests/` runs the library on concrete values.
