# mqtt_broker

An MQTT broker (3.1.1 and 5.0) with a management interface and a voice agent
that answers questions about it. The library under `src/` holds the rules and
is verified with Verus; `app/` puts sockets, HTTP, devices and models around it.

| Part | Modules |
| --- | --- |
| Wire format | `wire`, `properties`, `packet`, `decoder` |
| Broker | `table`, `state`, `subscription`, `session`, `connection`, `auth`, `storage` |
| Management | `management`, `api`, `tools` |
| Settings | `config`, `stack`, `soul`, `soul_defaults` |
| Spoken replies | `voice_text`, `voice_text_laws`, `followup` |
| Conversation | `voice_loop`, `wake`, `asr`, `tts`, `audio` |
| Audio | `kws`, `capture`, `playback`, `devices`, `device_logs`, `device_lists` |
| Shared | `text` |

Functions named `law_…` state what holds of the library as a whole: that a
packet whose texts fit their length fields is read back from its encoding, that
a message goes to exactly the matching subscriptions, that nothing is left of a
client that is gone, that nobody listens while something is being said.

What is believed without proof stands in functions marked `external_body` and in
one `assume_specification`: calls into `bytes`, `regex` and the standard
library. Each says above it what it claims.

Connections and conversations are state machines: `app/` reports what happened
and does what it is told next. Time is counted in seconds on the broker's clock
and in nanoseconds elsewhere.
