//! The named colours of CSS, with their red, green and blue components.
use crate::text::same_chars;
use vstd::prelude::*;

verus! {

/// The components of the colour named `s`, if `s` is a colour name.
pub open spec fn named_color(s: Seq<char>) -> Option<(u8, u8, u8)> {
    if s == seq!['a', 'l', 'i', 'c', 'e', 'b', 'l', 'u', 'e'] {
        Some((240, 248, 255))
    } else if s == seq!['a', 'n', 't', 'i', 'q', 'u', 'e', 'w', 'h', 'i', 't', 'e'] {
        Some((250, 235, 215))
    } else if s == seq!['a', 'q', 'u', 'a'] {
        Some((0, 255, 255))
    } else if s == seq!['a', 'q', 'u', 'a', 'm', 'a', 'r', 'i', 'n', 'e'] {
        Some((127, 255, 212))
    } else if s == seq!['a', 'z', 'u', 'r', 'e'] {
        Some((240, 255, 255))
    } else if s == seq!['b', 'e', 'i', 'g', 'e'] {
        Some((245, 245, 220))
    } else if s == seq!['b', 'i', 's', 'q', 'u', 'e'] {
        Some((255, 228, 196))
    } else if s == seq!['b', 'l', 'a', 'c', 'k'] {
        Some((0, 0, 0))
    } else if s == seq!['b', 'l', 'a', 'n', 'c', 'h', 'e', 'd', 'a', 'l', 'm', 'o', 'n', 'd'] {
        Some((255, 235, 205))
    } else if s == seq!['b', 'l', 'u', 'e'] {
        Some((0, 0, 255))
    } else if s == seq!['b', 'l', 'u', 'e', 'v', 'i', 'o', 'l', 'e', 't'] {
        Some((138, 43, 226))
    } else if s == seq!['b', 'r', 'o', 'w', 'n'] {
        Some((165, 42, 42))
    } else if s == seq!['b', 'u', 'r', 'l', 'y', 'w', 'o', 'o', 'd'] {
        Some((222, 184, 135))
    } else if s == seq!['c', 'a', 'd', 'e', 't', 'b', 'l', 'u', 'e'] {
        Some((95, 158, 160))
    } else if s == seq!['c', 'h', 'a', 'r', 't', 'r', 'e', 'u', 's', 'e'] {
        Some((127, 255, 0))
    } else if s == seq!['c', 'h', 'o', 'c', 'o', 'l', 'a', 't', 'e'] {
        Some((210, 105, 30))
    } else if s == seq!['c', 'o', 'r', 'a', 'l'] {
        Some((255, 127, 80))
    } else if s == seq!['c', 'o', 'r', 'n', 'f', 'l', 'o', 'w', 'e', 'r', 'b', 'l', 'u', 'e'] {
        Some((100, 149, 237))
    } else if s == seq!['c', 'o', 'r', 'n', 's', 'i', 'l', 'k'] {
        Some((255, 248, 220))
    } else if s == seq!['c', 'r', 'i', 'm', 's', 'o', 'n'] {
        Some((220, 20, 60))
    } else if s == seq!['c', 'y', 'a', 'n'] {
        Some((0, 255, 255))
    } else if s == seq!['d', 'a', 'r', 'k', 'b', 'l', 'u', 'e'] {
        Some((0, 0, 139))
    } else if s == seq!['d', 'a', 'r', 'k', 'c', 'y', 'a', 'n'] {
        Some((0, 139, 139))
    } else if s == seq!['d', 'a', 'r', 'k', 'g', 'o', 'l', 'd', 'e', 'n', 'r', 'o', 'd'] {
        Some((184, 134, 11))
    } else if s == seq!['d', 'a', 'r', 'k', 'g', 'r', 'a', 'y'] {
        Some((169, 169, 169))
    } else if s == seq!['d', 'a', 'r', 'k', 'g', 'r', 'e', 'y'] {
        Some((169, 169, 169))
    } else if s == seq!['d', 'a', 'r', 'k', 'g', 'r', 'e', 'e', 'n'] {
        Some((0, 100, 0))
    } else if s == seq!['d', 'a', 'r', 'k', 'k', 'h', 'a', 'k', 'i'] {
        Some((189, 183, 107))
    } else if s == seq!['d', 'a', 'r', 'k', 'm', 'a', 'g', 'e', 'n', 't', 'a'] {
        Some((139, 0, 139))
    } else if s == seq!['d', 'a', 'r', 'k', 'o', 'l', 'i', 'v', 'e', 'g', 'r', 'e', 'e', 'n'] {
        Some((85, 107, 47))
    } else if s == seq!['d', 'a', 'r', 'k', 'o', 'r', 'a', 'n', 'g', 'e'] {
        Some((255, 140, 0))
    } else if s == seq!['d', 'a', 'r', 'k', 'o', 'r', 'c', 'h', 'i', 'd'] {
        Some((153, 50, 204))
    } else if s == seq!['d', 'a', 'r', 'k', 'r', 'e', 'd'] {
        Some((139, 0, 0))
    } else if s == seq!['d', 'a', 'r', 'k', 's', 'a', 'l', 'm', 'o', 'n'] {
        Some((233, 150, 122))
    } else if s == seq!['d', 'a', 'r', 'k', 's', 'e', 'a', 'g', 'r', 'e', 'e', 'n'] {
        Some((143, 188, 143))
    } else if s == seq!['d', 'a', 'r', 'k', 's', 'l', 'a', 't', 'e', 'b', 'l', 'u', 'e'] {
        Some((72, 61, 139))
    } else if s == seq!['d', 'a', 'r', 'k', 's', 'l', 'a', 't', 'e', 'g', 'r', 'a', 'y'] {
        Some((47, 79, 79))
    } else if s == seq!['d', 'a', 'r', 'k', 's', 'l', 'a', 't', 'e', 'g', 'r', 'e', 'y'] {
        Some((47, 79, 79))
    } else if s == seq!['d', 'a', 'r', 'k', 't', 'u', 'r', 'q', 'u', 'o', 'i', 's', 'e'] {
        Some((0, 206, 209))
    } else if s == seq!['d', 'a', 'r', 'k', 'v', 'i', 'o', 'l', 'e', 't'] {
        Some((148, 0, 211))
    } else if s == seq!['d', 'e', 'e', 'p', 'p', 'i', 'n', 'k'] {
        Some((255, 20, 147))
    } else if s == seq!['d', 'e', 'e', 'p', 's', 'k', 'y', 'b', 'l', 'u', 'e'] {
        Some((0, 191, 255))
    } else if s == seq!['d', 'i', 'm', 'g', 'r', 'a', 'y'] {
        Some((105, 105, 105))
    } else if s == seq!['d', 'i', 'm', 'g', 'r', 'e', 'y'] {
        Some((105, 105, 105))
    } else if s == seq!['d', 'o', 'd', 'g', 'e', 'r', 'b', 'l', 'u', 'e'] {
        Some((30, 144, 255))
    } else if s == seq!['f', 'i', 'r', 'e', 'b', 'r', 'i', 'c', 'k'] {
        Some((178, 34, 34))
    } else if s == seq!['f', 'l', 'o', 'r', 'a', 'l', 'w', 'h', 'i', 't', 'e'] {
        Some((255, 250, 240))
    } else if s == seq!['f', 'o', 'r', 'e', 's', 't', 'g', 'r', 'e', 'e', 'n'] {
        Some((34, 139, 34))
    } else if s == seq!['f', 'u', 'c', 'h', 's', 'i', 'a'] {
        Some((255, 0, 255))
    } else if s == seq!['g', 'a', 'i', 'n', 's', 'b', 'o', 'r', 'o'] {
        Some((220, 220, 220))
    } else if s == seq!['g', 'h', 'o', 's', 't', 'w', 'h', 'i', 't', 'e'] {
        Some((248, 248, 255))
    } else if s == seq!['g', 'o', 'l', 'd'] {
        Some((255, 215, 0))
    } else if s == seq!['g', 'o', 'l', 'd', 'e', 'n', 'r', 'o', 'd'] {
        Some((218, 165, 32))
    } else if s == seq!['g', 'r', 'a', 'y'] {
        Some((128, 128, 128))
    } else if s == seq!['g', 'r', 'e', 'y'] {
        Some((128, 128, 128))
    } else if s == seq!['g', 'r', 'e', 'e', 'n'] {
        Some((0, 128, 0))
    } else if s == seq!['g', 'r', 'e', 'e', 'n', 'y', 'e', 'l', 'l', 'o', 'w'] {
        Some((173, 255, 47))
    } else if s == seq!['h', 'o', 'n', 'e', 'y', 'd', 'e', 'w'] {
        Some((240, 255, 240))
    } else if s == seq!['h', 'o', 't', 'p', 'i', 'n', 'k'] {
        Some((255, 105, 180))
    } else if s == seq!['i', 'n', 'd', 'i', 'a', 'n', 'r', 'e', 'd'] {
        Some((205, 92, 92))
    } else if s == seq!['i', 'n', 'd', 'i', 'g', 'o'] {
        Some((75, 0, 130))
    } else if s == seq!['i', 'v', 'o', 'r', 'y'] {
        Some((255, 255, 240))
    } else if s == seq!['k', 'h', 'a', 'k', 'i'] {
        Some((240, 230, 140))
    } else if s == seq!['l', 'a', 'v', 'e', 'n', 'd', 'e', 'r'] {
        Some((230, 230, 250))
    } else if s == seq!['l', 'a', 'v', 'e', 'n', 'd', 'e', 'r', 'b', 'l', 'u', 's', 'h'] {
        Some((255, 240, 245))
    } else if s == seq!['l', 'a', 'w', 'n', 'g', 'r', 'e', 'e', 'n'] {
        Some((124, 252, 0))
    } else if s == seq!['l', 'e', 'm', 'o', 'n', 'c', 'h', 'i', 'f', 'f', 'o', 'n'] {
        Some((255, 250, 205))
    } else if s == seq!['l', 'i', 'g', 'h', 't', 'b', 'l', 'u', 'e'] {
        Some((173, 216, 230))
    } else if s == seq!['l', 'i', 'g', 'h', 't', 'c', 'o', 'r', 'a', 'l'] {
        Some((240, 128, 128))
    } else if s == seq!['l', 'i', 'g', 'h', 't', 'c', 'y', 'a', 'n'] {
        Some((224, 255, 255))
    } else if s == seq!['l', 'i', 'g', 'h', 't', 'g', 'o', 'l', 'd', 'e', 'n', 'r', 'o', 'd', 'y', 'e', 'l', 'l', 'o', 'w'] {
        Some((250, 250, 210))
    } else if s == seq!['l', 'i', 'g', 'h', 't', 'g', 'r', 'a', 'y'] {
        Some((211, 211, 211))
    } else if s == seq!['l', 'i', 'g', 'h', 't', 'g', 'r', 'e', 'y'] {
        Some((211, 211, 211))
    } else if s == seq!['l', 'i', 'g', 'h', 't', 'g', 'r', 'e', 'e', 'n'] {
        Some((144, 238, 144))
    } else if s == seq!['l', 'i', 'g', 'h', 't', 'p', 'i', 'n', 'k'] {
        Some((255, 182, 193))
    } else if s == seq!['l', 'i', 'g', 'h', 't', 's', 'a', 'l', 'm', 'o', 'n'] {
        Some((255, 160, 122))
    } else if s == seq!['l', 'i', 'g', 'h', 't', 's', 'e', 'a', 'g', 'r', 'e', 'e', 'n'] {
        Some((32, 178, 170))
    } else if s == seq!['l', 'i', 'g', 'h', 't', 's', 'k', 'y', 'b', 'l', 'u', 'e'] {
        Some((135, 206, 250))
    } else if s == seq!['l', 'i', 'g', 'h', 't', 's', 'l', 'a', 't', 'e', 'g', 'r', 'a', 'y'] {
        Some((119, 136, 153))
    } else if s == seq!['l', 'i', 'g', 'h', 't', 's', 'l', 'a', 't', 'e', 'g', 'r', 'e', 'y'] {
        Some((119, 136, 153))
    } else if s == seq!['l', 'i', 'g', 'h', 't', 's', 't', 'e', 'e', 'l', 'b', 'l', 'u', 'e'] {
        Some((176, 196, 222))
    } else if s == seq!['l', 'i', 'g', 'h', 't', 'y', 'e', 'l', 'l', 'o', 'w'] {
        Some((255, 255, 224))
    } else if s == seq!['l', 'i', 'm', 'e'] {
        Some((0, 255, 0))
    } else if s == seq!['l', 'i', 'm', 'e', 'g', 'r', 'e', 'e', 'n'] {
        Some((50, 205, 50))
    } else if s == seq!['l', 'i', 'n', 'e', 'n'] {
        Some((250, 240, 230))
    } else if s == seq!['m', 'a', 'g', 'e', 'n', 't', 'a'] {
        Some((255, 0, 255))
    } else if s == seq!['m', 'a', 'r', 'o', 'o', 'n'] {
        Some((128, 0, 0))
    } else if s == seq!['m', 'e', 'd', 'i', 'u', 'm', 'a', 'q', 'u', 'a', 'm', 'a', 'r', 'i', 'n', 'e'] {
        Some((102, 205, 170))
    } else if s == seq!['m', 'e', 'd', 'i', 'u', 'm', 'b', 'l', 'u', 'e'] {
        Some((0, 0, 205))
    } else if s == seq!['m', 'e', 'd', 'i', 'u', 'm', 'o', 'r', 'c', 'h', 'i', 'd'] {
        Some((186, 85, 211))
    } else if s == seq!['m', 'e', 'd', 'i', 'u', 'm', 'p', 'u', 'r', 'p', 'l', 'e'] {
        Some((147, 112, 219))
    } else if s == seq!['m', 'e', 'd', 'i', 'u', 'm', 's', 'e', 'a', 'g', 'r', 'e', 'e', 'n'] {
        Some((60, 179, 113))
    } else if s == seq!['m', 'e', 'd', 'i', 'u', 'm', 's', 'l', 'a', 't', 'e', 'b', 'l', 'u', 'e'] {
        Some((123, 104, 238))
    } else if s == seq!['m', 'e', 'd', 'i', 'u', 'm', 's', 'p', 'r', 'i', 'n', 'g', 'g', 'r', 'e', 'e', 'n'] {
        Some((0, 250, 154))
    } else if s == seq!['m', 'e', 'd', 'i', 'u', 'm', 't', 'u', 'r', 'q', 'u', 'o', 'i', 's', 'e'] {
        Some((72, 209, 204))
    } else if s == seq!['m', 'e', 'd', 'i', 'u', 'm', 'v', 'i', 'o', 'l', 'e', 't', 'r', 'e', 'd'] {
        Some((199, 21, 133))
    } else if s == seq!['m', 'i', 'd', 'n', 'i', 'g', 'h', 't', 'b', 'l', 'u', 'e'] {
        Some((25, 25, 112))
    } else if s == seq!['m', 'i', 'n', 't', 'c', 'r', 'e', 'a', 'm'] {
        Some((245, 255, 250))
    } else if s == seq!['m', 'i', 's', 't', 'y', 'r', 'o', 's', 'e'] {
        Some((255, 228, 225))
    } else if s == seq!['m', 'o', 'c', 'c', 'a', 's', 'i', 'n'] {
        Some((255, 228, 181))
    } else if s == seq!['n', 'a', 'v', 'a', 'j', 'o', 'w', 'h', 'i', 't', 'e'] {
        Some((255, 222, 173))
    } else if s == seq!['n', 'a', 'v', 'y'] {
        Some((0, 0, 128))
    } else if s == seq!['o', 'l', 'd', 'l', 'a', 'c', 'e'] {
        Some((253, 245, 230))
    } else if s == seq!['o', 'l', 'i', 'v', 'e'] {
        Some((128, 128, 0))
    } else if s == seq!['o', 'l', 'i', 'v', 'e', 'd', 'r', 'a', 'b'] {
        Some((107, 142, 35))
    } else if s == seq!['o', 'r', 'a', 'n', 'g', 'e'] {
        Some((255, 165, 0))
    } else if s == seq!['o', 'r', 'a', 'n', 'g', 'e', 'r', 'e', 'd'] {
        Some((255, 69, 0))
    } else if s == seq!['o', 'r', 'c', 'h', 'i', 'd'] {
        Some((218, 112, 214))
    } else if s == seq!['p', 'a', 'l', 'e', 'g', 'o', 'l', 'd', 'e', 'n', 'r', 'o', 'd'] {
        Some((238, 232, 170))
    } else if s == seq!['p', 'a', 'l', 'e', 'g', 'r', 'e', 'e', 'n'] {
        Some((152, 251, 152))
    } else if s == seq!['p', 'a', 'l', 'e', 't', 'u', 'r', 'q', 'u', 'o', 'i', 's', 'e'] {
        Some((175, 238, 238))
    } else if s == seq!['p', 'a', 'l', 'e', 'v', 'i', 'o', 'l', 'e', 't', 'r', 'e', 'd'] {
        Some((219, 112, 147))
    } else if s == seq!['p', 'a', 'p', 'a', 'y', 'a', 'w', 'h', 'i', 'p'] {
        Some((255, 239, 213))
    } else if s == seq!['p', 'e', 'a', 'c', 'h', 'p', 'u', 'f', 'f'] {
        Some((255, 218, 185))
    } else if s == seq!['p', 'e', 'r', 'u'] {
        Some((205, 133, 63))
    } else if s == seq!['p', 'i', 'n', 'k'] {
        Some((255, 192, 203))
    } else if s == seq!['p', 'l', 'u', 'm'] {
        Some((221, 160, 221))
    } else if s == seq!['p', 'o', 'w', 'd', 'e', 'r', 'b', 'l', 'u', 'e'] {
        Some((176, 224, 230))
    } else if s == seq!['p', 'u', 'r', 'p', 'l', 'e'] {
        Some((128, 0, 128))
    } else if s == seq!['r', 'e', 'b', 'e', 'c', 'c', 'a', 'p', 'u', 'r', 'p', 'l', 'e'] {
        Some((102, 51, 153))
    } else if s == seq!['r', 'e', 'd'] {
        Some((255, 0, 0))
    } else if s == seq!['r', 'o', 's', 'y', 'b', 'r', 'o', 'w', 'n'] {
        Some((188, 143, 143))
    } else if s == seq!['r', 'o', 'y', 'a', 'l', 'b', 'l', 'u', 'e'] {
        Some((65, 105, 225))
    } else if s == seq!['s', 'a', 'd', 'd', 'l', 'e', 'b', 'r', 'o', 'w', 'n'] {
        Some((139, 69, 19))
    } else if s == seq!['s', 'a', 'l', 'm', 'o', 'n'] {
        Some((250, 128, 114))
    } else if s == seq!['s', 'a', 'n', 'd', 'y', 'b', 'r', 'o', 'w', 'n'] {
        Some((244, 164, 96))
    } else if s == seq!['s', 'e', 'a', 'g', 'r', 'e', 'e', 'n'] {
        Some((46, 139, 87))
    } else if s == seq!['s', 'e', 'a', 's', 'h', 'e', 'l', 'l'] {
        Some((255, 245, 238))
    } else if s == seq!['s', 'i', 'e', 'n', 'n', 'a'] {
        Some((160, 82, 45))
    } else if s == seq!['s', 'i', 'l', 'v', 'e', 'r'] {
        Some((192, 192, 192))
    } else if s == seq!['s', 'k', 'y', 'b', 'l', 'u', 'e'] {
        Some((135, 206, 235))
    } else if s == seq!['s', 'l', 'a', 't', 'e', 'b', 'l', 'u', 'e'] {
        Some((106, 90, 205))
    } else if s == seq!['s', 'l', 'a', 't', 'e', 'g', 'r', 'a', 'y'] {
        Some((112, 128, 144))
    } else if s == seq!['s', 'l', 'a', 't', 'e', 'g', 'r', 'e', 'y'] {
        Some((112, 128, 144))
    } else if s == seq!['s', 'n', 'o', 'w'] {
        Some((255, 250, 250))
    } else if s == seq!['s', 'p', 'r', 'i', 'n', 'g', 'g', 'r', 'e', 'e', 'n'] {
        Some((0, 255, 127))
    } else if s == seq!['s', 't', 'e', 'e', 'l', 'b', 'l', 'u', 'e'] {
        Some((70, 130, 180))
    } else if s == seq!['t', 'a', 'n'] {
        Some((210, 180, 140))
    } else if s == seq!['t', 'e', 'a', 'l'] {
        Some((0, 128, 128))
    } else if s == seq!['t', 'h', 'i', 's', 't', 'l', 'e'] {
        Some((216, 191, 216))
    } else if s == seq!['t', 'o', 'm', 'a', 't', 'o'] {
        Some((255, 99, 71))
    } else if s == seq!['t', 'u', 'r', 'q', 'u', 'o', 'i', 's', 'e'] {
        Some((64, 224, 208))
    } else if s == seq!['v', 'i', 'o', 'l', 'e', 't'] {
        Some((238, 130, 238))
    } else if s == seq!['w', 'h', 'e', 'a', 't'] {
        Some((245, 222, 179))
    } else if s == seq!['w', 'h', 'i', 't', 'e'] {
        Some((255, 255, 255))
    } else if s == seq!['w', 'h', 'i', 't', 'e', 's', 'm', 'o', 'k', 'e'] {
        Some((245, 245, 245))
    } else if s == seq!['y', 'e', 'l', 'l', 'o', 'w'] {
        Some((255, 255, 0))
    } else if s == seq!['y', 'e', 'l', 'l', 'o', 'w', 'g', 'r', 'e', 'e', 'n'] {
        Some((154, 205, 50))
    } else {
        None
    }
}

pub fn lookup_named_color(s: &[char]) -> (r: Option<(u8, u8, u8)>)
    ensures
        r == named_color(s@),
{
    if same_chars(s, &['a', 'l', 'i', 'c', 'e', 'b', 'l', 'u', 'e']) {
        return Some((240, 248, 255));
    }
    if same_chars(s, &['a', 'n', 't', 'i', 'q', 'u', 'e', 'w', 'h', 'i', 't', 'e']) {
        return Some((250, 235, 215));
    }
    if same_chars(s, &['a', 'q', 'u', 'a']) {
        return Some((0, 255, 255));
    }
    if same_chars(s, &['a', 'q', 'u', 'a', 'm', 'a', 'r', 'i', 'n', 'e']) {
        return Some((127, 255, 212));
    }
    if same_chars(s, &['a', 'z', 'u', 'r', 'e']) {
        return Some((240, 255, 255));
    }
    if same_chars(s, &['b', 'e', 'i', 'g', 'e']) {
        return Some((245, 245, 220));
    }
    if same_chars(s, &['b', 'i', 's', 'q', 'u', 'e']) {
        return Some((255, 228, 196));
    }
    if same_chars(s, &['b', 'l', 'a', 'c', 'k']) {
        return Some((0, 0, 0));
    }
    if same_chars(s, &['b', 'l', 'a', 'n', 'c', 'h', 'e', 'd', 'a', 'l', 'm', 'o', 'n', 'd']) {
        return Some((255, 235, 205));
    }
    if same_chars(s, &['b', 'l', 'u', 'e']) {
        return Some((0, 0, 255));
    }
    if same_chars(s, &['b', 'l', 'u', 'e', 'v', 'i', 'o', 'l', 'e', 't']) {
        return Some((138, 43, 226));
    }
    if same_chars(s, &['b', 'r', 'o', 'w', 'n']) {
        return Some((165, 42, 42));
    }
    if same_chars(s, &['b', 'u', 'r', 'l', 'y', 'w', 'o', 'o', 'd']) {
        return Some((222, 184, 135));
    }
    if same_chars(s, &['c', 'a', 'd', 'e', 't', 'b', 'l', 'u', 'e']) {
        return Some((95, 158, 160));
    }
    if same_chars(s, &['c', 'h', 'a', 'r', 't', 'r', 'e', 'u', 's', 'e']) {
        return Some((127, 255, 0));
    }
    if same_chars(s, &['c', 'h', 'o', 'c', 'o', 'l', 'a', 't', 'e']) {
        return Some((210, 105, 30));
    }
    if same_chars(s, &['c', 'o', 'r', 'a', 'l']) {
        return Some((255, 127, 80));
    }
    if same_chars(s, &['c', 'o', 'r', 'n', 'f', 'l', 'o', 'w', 'e', 'r', 'b', 'l', 'u', 'e']) {
        return Some((100, 149, 237));
    }
    if same_chars(s, &['c', 'o', 'r', 'n', 's', 'i', 'l', 'k']) {
        return Some((255, 248, 220));
    }
    if same_chars(s, &['c', 'r', 'i', 'm', 's', 'o', 'n']) {
        return Some((220, 20, 60));
    }
    if same_chars(s, &['c', 'y', 'a', 'n']) {
        return Some((0, 255, 255));
    }
    if same_chars(s, &['d', 'a', 'r', 'k', 'b', 'l', 'u', 'e']) {
        return Some((0, 0, 139));
    }
    if same_chars(s, &['d', 'a', 'r', 'k', 'c', 'y', 'a', 'n']) {
        return Some((0, 139, 139));
    }
    if same_chars(s, &['d', 'a', 'r', 'k', 'g', 'o', 'l', 'd', 'e', 'n', 'r', 'o', 'd']) {
        return Some((184, 134, 11));
    }
    if same_chars(s, &['d', 'a', 'r', 'k', 'g', 'r', 'a', 'y']) {
        return Some((169, 169, 169));
    }
    if same_chars(s, &['d', 'a', 'r', 'k', 'g', 'r', 'e', 'y']) {
        return Some((169, 169, 169));
    }
    if same_chars(s, &['d', 'a', 'r', 'k', 'g', 'r', 'e', 'e', 'n']) {
        return Some((0, 100, 0));
    }
    if same_chars(s, &['d', 'a', 'r', 'k', 'k', 'h', 'a', 'k', 'i']) {
        return Some((189, 183, 107));
    }
    if same_chars(s, &['d', 'a', 'r', 'k', 'm', 'a', 'g', 'e', 'n', 't', 'a']) {
        return Some((139, 0, 139));
    }
    if same_chars(s, &['d', 'a', 'r', 'k', 'o', 'l', 'i', 'v', 'e', 'g', 'r', 'e', 'e', 'n']) {
        return Some((85, 107, 47));
    }
    if same_chars(s, &['d', 'a', 'r', 'k', 'o', 'r', 'a', 'n', 'g', 'e']) {
        return Some((255, 140, 0));
    }
    if same_chars(s, &['d', 'a', 'r', 'k', 'o', 'r', 'c', 'h', 'i', 'd']) {
        return Some((153, 50, 204));
    }
    if same_chars(s, &['d', 'a', 'r', 'k', 'r', 'e', 'd']) {
        return Some((139, 0, 0));
    }
    if same_chars(s, &['d', 'a', 'r', 'k', 's', 'a', 'l', 'm', 'o', 'n']) {
        return Some((233, 150, 122));
    }
    if same_chars(s, &['d', 'a', 'r', 'k', 's', 'e', 'a', 'g', 'r', 'e', 'e', 'n']) {
        return Some((143, 188, 143));
    }
    if same_chars(s, &['d', 'a', 'r', 'k', 's', 'l', 'a', 't', 'e', 'b', 'l', 'u', 'e']) {
        return Some((72, 61, 139));
    }
    if same_chars(s, &['d', 'a', 'r', 'k', 's', 'l', 'a', 't', 'e', 'g', 'r', 'a', 'y']) {
        return Some((47, 79, 79));
    }
    if same_chars(s, &['d', 'a', 'r', 'k', 's', 'l', 'a', 't', 'e', 'g', 'r', 'e', 'y']) {
        return Some((47, 79, 79));
    }
    if same_chars(s, &['d', 'a', 'r', 'k', 't', 'u', 'r', 'q', 'u', 'o', 'i', 's', 'e']) {
        return Some((0, 206, 209));
    }
    if same_chars(s, &['d', 'a', 'r', 'k', 'v', 'i', 'o', 'l', 'e', 't']) {
        return Some((148, 0, 211));
    }
    if same_chars(s, &['d', 'e', 'e', 'p', 'p', 'i', 'n', 'k']) {
        return Some((255, 20, 147));
    }
    if same_chars(s, &['d', 'e', 'e', 'p', 's', 'k', 'y', 'b', 'l', 'u', 'e']) {
        return Some((0, 191, 255));
    }
    if same_chars(s, &['d', 'i', 'm', 'g', 'r', 'a', 'y']) {
        return Some((105, 105, 105));
    }
    if same_chars(s, &['d', 'i', 'm', 'g', 'r', 'e', 'y']) {
        return Some((105, 105, 105));
    }
    if same_chars(s, &['d', 'o', 'd', 'g', 'e', 'r', 'b', 'l', 'u', 'e']) {
        return Some((30, 144, 255));
    }
    if same_chars(s, &['f', 'i', 'r', 'e', 'b', 'r', 'i', 'c', 'k']) {
        return Some((178, 34, 34));
    }
    if same_chars(s, &['f', 'l', 'o', 'r', 'a', 'l', 'w', 'h', 'i', 't', 'e']) {
        return Some((255, 250, 240));
    }
    if same_chars(s, &['f', 'o', 'r', 'e', 's', 't', 'g', 'r', 'e', 'e', 'n']) {
        return Some((34, 139, 34));
    }
    if same_chars(s, &['f', 'u', 'c', 'h', 's', 'i', 'a']) {
        return Some((255, 0, 255));
    }
    if same_chars(s, &['g', 'a', 'i', 'n', 's', 'b', 'o', 'r', 'o']) {
        return Some((220, 220, 220));
    }
    if same_chars(s, &['g', 'h', 'o', 's', 't', 'w', 'h', 'i', 't', 'e']) {
        return Some((248, 248, 255));
    }
    if same_chars(s, &['g', 'o', 'l', 'd']) {
        return Some((255, 215, 0));
    }
    if same_chars(s, &['g', 'o', 'l', 'd', 'e', 'n', 'r', 'o', 'd']) {
        return Some((218, 165, 32));
    }
    if same_chars(s, &['g', 'r', 'a', 'y']) {
        return Some((128, 128, 128));
    }
    if same_chars(s, &['g', 'r', 'e', 'y']) {
        return Some((128, 128, 128));
    }
    if same_chars(s, &['g', 'r', 'e', 'e', 'n']) {
        return Some((0, 128, 0));
    }
    if same_chars(s, &['g', 'r', 'e', 'e', 'n', 'y', 'e', 'l', 'l', 'o', 'w']) {
        return Some((173, 255, 47));
    }
    if same_chars(s, &['h', 'o', 'n', 'e', 'y', 'd', 'e', 'w']) {
        return Some((240, 255, 240));
    }
    if same_chars(s, &['h', 'o', 't', 'p', 'i', 'n', 'k']) {
        return Some((255, 105, 180));
    }
    if same_chars(s, &['i', 'n', 'd', 'i', 'a', 'n', 'r', 'e', 'd']) {
        return Some((205, 92, 92));
    }
    if same_chars(s, &['i', 'n', 'd', 'i', 'g', 'o']) {
        return Some((75, 0, 130));
    }
    if same_chars(s, &['i', 'v', 'o', 'r', 'y']) {
        return Some((255, 255, 240));
    }
    if same_chars(s, &['k', 'h', 'a', 'k', 'i']) {
        return Some((240, 230, 140));
    }
    if same_chars(s, &['l', 'a', 'v', 'e', 'n', 'd', 'e', 'r']) {
        return Some((230, 230, 250));
    }
    if same_chars(s, &['l', 'a', 'v', 'e', 'n', 'd', 'e', 'r', 'b', 'l', 'u', 's', 'h']) {
        return Some((255, 240, 245));
    }
    if same_chars(s, &['l', 'a', 'w', 'n', 'g', 'r', 'e', 'e', 'n']) {
        return Some((124, 252, 0));
    }
    if same_chars(s, &['l', 'e', 'm', 'o', 'n', 'c', 'h', 'i', 'f', 'f', 'o', 'n']) {
        return Some((255, 250, 205));
    }
    if same_chars(s, &['l', 'i', 'g', 'h', 't', 'b', 'l', 'u', 'e']) {
        return Some((173, 216, 230));
    }
    if same_chars(s, &['l', 'i', 'g', 'h', 't', 'c', 'o', 'r', 'a', 'l']) {
        return Some((240, 128, 128));
    }
    if same_chars(s, &['l', 'i', 'g', 'h', 't', 'c', 'y', 'a', 'n']) {
        return Some((224, 255, 255));
    }
    if same_chars(s, &['l', 'i', 'g', 'h', 't', 'g', 'o', 'l', 'd', 'e', 'n', 'r', 'o', 'd', 'y', 'e', 'l', 'l', 'o', 'w']) {
        return Some((250, 250, 210));
    }
    if same_chars(s, &['l', 'i', 'g', 'h', 't', 'g', 'r', 'a', 'y']) {
        return Some((211, 211, 211));
    }
    if same_chars(s, &['l', 'i', 'g', 'h', 't', 'g', 'r', 'e', 'y']) {
        return Some((211, 211, 211));
    }
    if same_chars(s, &['l', 'i', 'g', 'h', 't', 'g', 'r', 'e', 'e', 'n']) {
        return Some((144, 238, 144));
    }
    if same_chars(s, &['l', 'i', 'g', 'h', 't', 'p', 'i', 'n', 'k']) {
        return Some((255, 182, 193));
    }
    if same_chars(s, &['l', 'i', 'g', 'h', 't', 's', 'a', 'l', 'm', 'o', 'n']) {
        return Some((255, 160, 122));
    }
    if same_chars(s, &['l', 'i', 'g', 'h', 't', 's', 'e', 'a', 'g', 'r', 'e', 'e', 'n']) {
        return Some((32, 178, 170));
    }
    if same_chars(s, &['l', 'i', 'g', 'h', 't', 's', 'k', 'y', 'b', 'l', 'u', 'e']) {
        return Some((135, 206, 250));
    }
    if same_chars(s, &['l', 'i', 'g', 'h', 't', 's', 'l', 'a', 't', 'e', 'g', 'r', 'a', 'y']) {
        return Some((119, 136, 153));
    }
    if same_chars(s, &['l', 'i', 'g', 'h', 't', 's', 'l', 'a', 't', 'e', 'g', 'r', 'e', 'y']) {
        return Some((119, 136, 153));
    }
    if same_chars(s, &['l', 'i', 'g', 'h', 't', 's', 't', 'e', 'e', 'l', 'b', 'l', 'u', 'e']) {
        return Some((176, 196, 222));
    }
    if same_chars(s, &['l', 'i', 'g', 'h', 't', 'y', 'e', 'l', 'l', 'o', 'w']) {
        return Some((255, 255, 224));
    }
    if same_chars(s, &['l', 'i', 'm', 'e']) {
        return Some((0, 255, 0));
    }
    if same_chars(s, &['l', 'i', 'm', 'e', 'g', 'r', 'e', 'e', 'n']) {
        return Some((50, 205, 50));
    }
    if same_chars(s, &['l', 'i', 'n', 'e', 'n']) {
        return Some((250, 240, 230));
    }
    if same_chars(s, &['m', 'a', 'g', 'e', 'n', 't', 'a']) {
        return Some((255, 0, 255));
    }
    if same_chars(s, &['m', 'a', 'r', 'o', 'o', 'n']) {
        return Some((128, 0, 0));
    }
    if same_chars(s, &['m', 'e', 'd', 'i', 'u', 'm', 'a', 'q', 'u', 'a', 'm', 'a', 'r', 'i', 'n', 'e']) {
        return Some((102, 205, 170));
    }
    if same_chars(s, &['m', 'e', 'd', 'i', 'u', 'm', 'b', 'l', 'u', 'e']) {
        return Some((0, 0, 205));
    }
    if same_chars(s, &['m', 'e', 'd', 'i', 'u', 'm', 'o', 'r', 'c', 'h', 'i', 'd']) {
        return Some((186, 85, 211));
    }
    if same_chars(s, &['m', 'e', 'd', 'i', 'u', 'm', 'p', 'u', 'r', 'p', 'l', 'e']) {
        return Some((147, 112, 219));
    }
    if same_chars(s, &['m', 'e', 'd', 'i', 'u', 'm', 's', 'e', 'a', 'g', 'r', 'e', 'e', 'n']) {
        return Some((60, 179, 113));
    }
    if same_chars(s, &['m', 'e', 'd', 'i', 'u', 'm', 's', 'l', 'a', 't', 'e', 'b', 'l', 'u', 'e']) {
        return Some((123, 104, 238));
    }
    if same_chars(s, &['m', 'e', 'd', 'i', 'u', 'm', 's', 'p', 'r', 'i', 'n', 'g', 'g', 'r', 'e', 'e', 'n']) {
        return Some((0, 250, 154));
    }
    if same_chars(s, &['m', 'e', 'd', 'i', 'u', 'm', 't', 'u', 'r', 'q', 'u', 'o', 'i', 's', 'e']) {
        return Some((72, 209, 204));
    }
    if same_chars(s, &['m', 'e', 'd', 'i', 'u', 'm', 'v', 'i', 'o', 'l', 'e', 't', 'r', 'e', 'd']) {
        return Some((199, 21, 133));
    }
    if same_chars(s, &['m', 'i', 'd', 'n', 'i', 'g', 'h', 't', 'b', 'l', 'u', 'e']) {
        return Some((25, 25, 112));
    }
    if same_chars(s, &['m', 'i', 'n', 't', 'c', 'r', 'e', 'a', 'm']) {
        return Some((245, 255, 250));
    }
    if same_chars(s, &['m', 'i', 's', 't', 'y', 'r', 'o', 's', 'e']) {
        return Some((255, 228, 225));
    }
    if same_chars(s, &['m', 'o', 'c', 'c', 'a', 's', 'i', 'n']) {
        return Some((255, 228, 181));
    }
    if same_chars(s, &['n', 'a', 'v', 'a', 'j', 'o', 'w', 'h', 'i', 't', 'e']) {
        return Some((255, 222, 173));
    }
    if same_chars(s, &['n', 'a', 'v', 'y']) {
        return Some((0, 0, 128));
    }
    if same_chars(s, &['o', 'l', 'd', 'l', 'a', 'c', 'e']) {
        return Some((253, 245, 230));
    }
    if same_chars(s, &['o', 'l', 'i', 'v', 'e']) {
        return Some((128, 128, 0));
    }
    if same_chars(s, &['o', 'l', 'i', 'v', 'e', 'd', 'r', 'a', 'b']) {
        return Some((107, 142, 35));
    }
    if same_chars(s, &['o', 'r', 'a', 'n', 'g', 'e']) {
        return Some((255, 165, 0));
    }
    if same_chars(s, &['o', 'r', 'a', 'n', 'g', 'e', 'r', 'e', 'd']) {
        return Some((255, 69, 0));
    }
    if same_chars(s, &['o', 'r', 'c', 'h', 'i', 'd']) {
        return Some((218, 112, 214));
    }
    if same_chars(s, &['p', 'a', 'l', 'e', 'g', 'o', 'l', 'd', 'e', 'n', 'r', 'o', 'd']) {
        return Some((238, 232, 170));
    }
    if same_chars(s, &['p', 'a', 'l', 'e', 'g', 'r', 'e', 'e', 'n']) {
        return Some((152, 251, 152));
    }
    if same_chars(s, &['p', 'a', 'l', 'e', 't', 'u', 'r', 'q', 'u', 'o', 'i', 's', 'e']) {
        return Some((175, 238, 238));
    }
    if same_chars(s, &['p', 'a', 'l', 'e', 'v', 'i', 'o', 'l', 'e', 't', 'r', 'e', 'd']) {
        return Some((219, 112, 147));
    }
    if same_chars(s, &['p', 'a', 'p', 'a', 'y', 'a', 'w', 'h', 'i', 'p']) {
        return Some((255, 239, 213));
    }
    if same_chars(s, &['p', 'e', 'a', 'c', 'h', 'p', 'u', 'f', 'f']) {
        return Some((255, 218, 185));
    }
    if same_chars(s, &['p', 'e', 'r', 'u']) {
        return Some((205, 133, 63));
    }
    if same_chars(s, &['p', 'i', 'n', 'k']) {
        return Some((255, 192, 203));
    }
    if same_chars(s, &['p', 'l', 'u', 'm']) {
        return Some((221, 160, 221));
    }
    if same_chars(s, &['p', 'o', 'w', 'd', 'e', 'r', 'b', 'l', 'u', 'e']) {
        return Some((176, 224, 230));
    }
    if same_chars(s, &['p', 'u', 'r', 'p', 'l', 'e']) {
        return Some((128, 0, 128));
    }
    if same_chars(s, &['r', 'e', 'b', 'e', 'c', 'c', 'a', 'p', 'u', 'r', 'p', 'l', 'e']) {
        return Some((102, 51, 153));
    }
    if same_chars(s, &['r', 'e', 'd']) {
        return Some((255, 0, 0));
    }
    if same_chars(s, &['r', 'o', 's', 'y', 'b', 'r', 'o', 'w', 'n']) {
        return Some((188, 143, 143));
    }
    if same_chars(s, &['r', 'o', 'y', 'a', 'l', 'b', 'l', 'u', 'e']) {
        return Some((65, 105, 225));
    }
    if same_chars(s, &['s', 'a', 'd', 'd', 'l', 'e', 'b', 'r', 'o', 'w', 'n']) {
        return Some((139, 69, 19));
    }
    if same_chars(s, &['s', 'a', 'l', 'm', 'o', 'n']) {
        return Some((250, 128, 114));
    }
    if same_chars(s, &['s', 'a', 'n', 'd', 'y', 'b', 'r', 'o', 'w', 'n']) {
        return Some((244, 164, 96));
    }
    if same_chars(s, &['s', 'e', 'a', 'g', 'r', 'e', 'e', 'n']) {
        return Some((46, 139, 87));
    }
    if same_chars(s, &['s', 'e', 'a', 's', 'h', 'e', 'l', 'l']) {
        return Some((255, 245, 238));
    }
    if same_chars(s, &['s', 'i', 'e', 'n', 'n', 'a']) {
        return Some((160, 82, 45));
    }
    if same_chars(s, &['s', 'i', 'l', 'v', 'e', 'r']) {
        return Some((192, 192, 192));
    }
    if same_chars(s, &['s', 'k', 'y', 'b', 'l', 'u', 'e']) {
        return Some((135, 206, 235));
    }
    if same_chars(s, &['s', 'l', 'a', 't', 'e', 'b', 'l', 'u', 'e']) {
        return Some((106, 90, 205));
    }
    if same_chars(s, &['s', 'l', 'a', 't', 'e', 'g', 'r', 'a', 'y']) {
        return Some((112, 128, 144));
    }
    if same_chars(s, &['s', 'l', 'a', 't', 'e', 'g', 'r', 'e', 'y']) {
        return Some((112, 128, 144));
    }
    if same_chars(s, &['s', 'n', 'o', 'w']) {
        return Some((255, 250, 250));
    }
    if same_chars(s, &['s', 'p', 'r', 'i', 'n', 'g', 'g', 'r', 'e', 'e', 'n']) {
        return Some((0, 255, 127));
    }
    if same_chars(s, &['s', 't', 'e', 'e', 'l', 'b', 'l', 'u', 'e']) {
        return Some((70, 130, 180));
    }
    if same_chars(s, &['t', 'a', 'n']) {
        return Some((210, 180, 140));
    }
    if same_chars(s, &['t', 'e', 'a', 'l']) {
        return Some((0, 128, 128));
    }
    if same_chars(s, &['t', 'h', 'i', 's', 't', 'l', 'e']) {
        return Some((216, 191, 216));
    }
    if same_chars(s, &['t', 'o', 'm', 'a', 't', 'o']) {
        return Some((255, 99, 71));
    }
    if same_chars(s, &['t', 'u', 'r', 'q', 'u', 'o', 'i', 's', 'e']) {
        return Some((64, 224, 208));
    }
    if same_chars(s, &['v', 'i', 'o', 'l', 'e', 't']) {
        return Some((238, 130, 238));
    }
    if same_chars(s, &['w', 'h', 'e', 'a', 't']) {
        return Some((245, 222, 179));
    }
    if same_chars(s, &['w', 'h', 'i', 't', 'e']) {
        return Some((255, 255, 255));
    }
    if same_chars(s, &['w', 'h', 'i', 't', 'e', 's', 'm', 'o', 'k', 'e']) {
        return Some((245, 245, 245));
    }
    if same_chars(s, &['y', 'e', 'l', 'l', 'o', 'w']) {
        return Some((255, 255, 0));
    }
    if same_chars(s, &['y', 'e', 'l', 'l', 'o', 'w', 'g', 'r', 'e', 'e', 'n']) {
        return Some((154, 205, 50));
    }
    None
}

} // verus!
