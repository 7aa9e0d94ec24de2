# thread_sensor

The core of a Thread sensor node, written in Verus, and the firmware around it.

The node is configured from an Active Operational Dataset given as hexadecimal
text, derives the key material of the network, listens for IEEE 802.15.4 frames,
decrypts the secured ones, reads the compressed IPv6 header in their payload,
and samples an SHT41 temperature and humidity sensor.

- `src/` is the library: what the node decides, and what it computes on integers
  and bytes, with contracts.
  - `crc`, `sht41`: the sensor's CRC-8, the steps of a measurement, and when to
    measure.
  - `hex`, `dataset`, `dataset_laws`: the dataset text and what it describes.
  - `bytes`, `keys`: key derivation.
  - `mac`, `payload`, `receive`, `receiver`: received frames.
- `app/` is the firmware for an nRF52840: radio, I2C bus, timers, logging, and the
  conversion of readings to degrees and percent, which is floating point. It
  runs on the spinning executor of embassy, which does not sleep between events.
- `tests/` runs the library on concrete values.

The library calls `smoltcp`, `heapless`, `aes`, `ccm`, `hmac` and `sha2`. What it
relies on them for is stated above each function that calls one; those
functions are in `keys`, `mac` and `payload`.
