# audio_forwarder

Forwards audio from one machine's audio device to another's over the
network: a TCP control channel configures the stream, and UDP packets carry
the samples.

- `src/` is the verified library (Verus): the configuration text
  `<channels>x<khz>x<format>`, device identities, making device names unique,
  choosing hosts, devices and configurations, the device list, the UDP packet
  format, the bounded sample buffers of sender and receiver, the control
  messages and the server's table of connections.
- `app/` is the program around it: command line, cpal devices, sockets,
  async tasks, metrics, MessagePack encoding and the floating-point
  conversions of samples and kilohertz figures.
- `tests/` exercises the library on concrete values.
