pub mod manifest;
pub mod version;
pub mod world_packet_list;
