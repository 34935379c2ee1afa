# camhub

A camera-monitoring system: camera devices watch a folder for new images,
store them in S3 and announce them over MQTT; a backend serves an HTTP API
(login, cameras, events feed, image listing, camera commands) over SQLite,
DynamoDB and S3.

- `src/` is the verified library (Verus): every decision of the handlers,
  the MQTT loops and the image publisher, with contracts and laws.
  - `text`: numerals, integer parsing, byte order of strings, UTF-8 and
    header text.
  - `clock`: the wall clock and UTC timestamps as text (chrono).
  - `routes`: the HTTP handlers' decisions (`reply`, `auth`, `cameras`,
    `commands`, `events`, `images`) and the listener's settings.
  - `link`: what the MQTT loops do on each connection event.
  - `device`, `image_publisher`: the device's settings and its scan/upload rules.
  - `models`, `db`, `backend`: stored records, SQL statements, server settings.
- `tests/` runs the library on concrete values.
- `app/` is the program around it: `camhub backend` runs the server,
  `camhub device` the camera device. It does the I/O (axum, sqlx, AWS SDK,
  rumqttc) and holds the serde forms of the library's types.
