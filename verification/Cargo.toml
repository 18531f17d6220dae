[package]
name = "chromium_storage_forensic"
version = "0.1.0"
edition = "2021"
publish = false

[dependencies]
forensicnomicon-core = "*"
forensicnomicon = "*"
safe-read = "*"
leveldb-core = "*"
blob-decoder = "*"
crc32fast = "1"
sha2 = "0.10"
