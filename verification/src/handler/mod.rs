pub mod voice_packet;
