# eager-alarm-edge

An alarm scheduler for a small device. Alarms repeat on days of the week; they are added, edited
and stopped by messages over MQTT, and kept in a file so that a restart forgets nothing.

`src/` is the library, verified with Verus. It decides; it does no input or output.

| module | what it holds |
| --- | --- |
| `calendar` | local moments, weekdays and times of day |
| `naive_time_hm` | times of day as `HH:MM` texts |
| `alarm` | an alarm, and when it rings next |
| `schedule` | the queue of pending rings |
| `mute` | the monotonic clock and the mute that a pause sets |
| `ringer` | the turns of a ringer that writes to the log |
| `store` | what the alarms file keeps, and how it is replaced |
| `manager` | what each command and each due ring makes of the alarms |
| `handle` | the commands that can be given, and the answers to them |
| `request` | the messages that arrive, and what is done about each |
| `laws` | what holds of all of this together |
| `history` | what holds over any number of commands and rings |

`app/` is the program: it reads and writes the file and the messages, waits, and rings. `tests/`
runs the library on concrete values.

The settings are `--mqtt-host`, `--mqtt-port`, `--mqtt-client-id`, `--mqtt-username`,
`--mqtt-password` and `--alarms-file`, or `MQTT_HOST`, `MQTT_PORT`, `MQTT_CLIENT_ID`,
`MQTT_USERNAME`, `MQTT_PASSWORD` and `ALARMS_FILE` in the environment or in a `.env` file.
