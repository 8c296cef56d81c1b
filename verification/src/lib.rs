//! Relay between servers that share AES-256-GCM keys with it: the grammar of
//! the ECHO and SEND messages, the encryption envelopes, the key tables, and the
//! relay's decisions on what it hears.

pub mod protocol;

pub mod aes256_gcm_encryptor;
pub mod aes_encryptor;

pub mod config_reader;
pub mod server_config;
pub mod server_config_json;
pub mod server_config_manager;
pub mod table;

pub mod relay;

pub mod aead_cipher;
pub mod base64_text;
pub mod entropy;
pub mod json_map;
pub mod std_text;
