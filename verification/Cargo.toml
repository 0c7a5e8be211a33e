[package]
name = "exam_extract"
version = "0.1.0"
edition = "2021"
publish = false

[dependencies]
adobe-cmap-parser = "*"
encoding = "*"
lopdf = "*"
native-dialog = "*"
umya-spreadsheet = "*"
