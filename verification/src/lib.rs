//! An MQTT broker core with a management interface, and the decision logic of
//! a voice front end that drives it.

pub mod wire;
pub mod properties;
pub mod text;
pub mod text_laws;
pub mod packet;
pub mod packet_laws;
pub mod wire_laws;
pub mod decoder;
pub mod table;
pub mod state;
pub mod subscription;
pub mod session;
pub mod connection;
pub mod broker_laws;
pub mod connection_laws;
pub mod config;
pub mod voice_text;
pub mod voice_text_laws;
pub mod spoken_laws;
pub mod auth;
pub mod storage;
pub mod management;
pub mod api;
pub mod devices;
pub mod device_laws;
pub mod device_logs;
pub mod device_lists;
pub mod device_report_laws;
pub mod wake;
pub mod asr;
pub mod tts;
pub mod audio;
pub mod kws;
pub mod capture;
pub mod playback;
pub mod followup;
pub mod voice_loop;
pub mod voice_loop_laws;
pub mod soul;
pub mod soul_defaults;
pub mod tools;
pub mod management_laws;
pub mod stack;
pub mod audio_laws;
