//! NMEA 2000 Fast Packet transport: a codec for single 8-byte CAN frames and a
//! message layer that splits a payload into frames and reassembles it.

pub mod frame_queue;
pub mod nmea_frame;
pub mod nmea_message;
pub mod round_trip;
pub mod segmentation;
