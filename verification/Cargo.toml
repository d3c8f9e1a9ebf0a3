[package]
name = "quizzbuzz_db"
version = "0.1.0"
edition = "2021"
publish = false

[dependencies]
futures = "0.3"
mongodb = "2"
urlencoding = "2"
