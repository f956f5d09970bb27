[package]
name = "ykrt"
version = "0.1.0"
edition = "2021"
publish = false

[dependencies]
byteorder = "1"
dynasm = "*"
dynasmrt = "*"
hex = "0.4"
intervaltree = "0.2"
leb128 = "0.2"
libc = "0.2"
llvm-sys = "*"
memmap2 = "*"
object = "*"
once_cell = "1"
parking_lot = "0.12"
regex = "1"
tempfile = "3"
thiserror = "1"
