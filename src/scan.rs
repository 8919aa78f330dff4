//! What the JSON parser of `rustc_serialize` can take without failing.
//!
//! The parser keeps the keys of the objects it is inside of in one byte
//! buffer, indexed by `u16`: where the keys along one chain of nested
//! objects total more than 65,535 bytes it panics or misreads a key. It
//! reads the exponent of a number into a `usize` without checking for
//! overflow, so an exponent of many digits panics. It also recurses once
//! per level of nesting. A scan of the text, which follows strings,
//! escapes, numbers' exponents and brackets as the parser does, tells these
//! texts apart before they reach it.

use vstd::prelude::*;

verus! {

/// The most bytes that the keys along one chain of nested objects may total.
pub const MAX_KEY_CHAIN: u32 = 65535;

/// How deeply arrays and objects may nest, so that the recursive parser
/// stays well within a thread's stack.
pub const MAX_DEPTH: usize = 128;

/// The most digits an exponent may have, so that its value fits a `usize`
/// of 32 bits as well as one of 64.
pub const MAX_EXPONENT_DIGITS: u32 = 9;

/// Where a scan of JSON text stands.
pub struct ScanModel {
    /// The open arrays and objects, outermost first: whether it is an
    /// object, and the bytes of the key of the member being read in it.
    pub levels: Seq<(bool, nat)>,
    /// Whether the scan is inside a string.
    pub in_str: bool,
    /// Inside a string: 0 outside an escape, 1 after a backslash, and from
    /// 2 to 5 while reading the first to the fourth hex digit of `\u`.
    pub esc: nat,
    /// The hex digits of a `\u` escape read so far.
    pub hex: nat,
    /// The bytes of the current string once decoded (counting stops at
    /// 65,536, already too long for a key).
    pub str_len: nat,
    /// The decoded bytes of a string just closed, until something other
    /// than white space follows it; a `:` then makes it a key.
    pub pending: Option<nat>,
    /// Outside strings: 0 outside an exponent, 1 just after its `e` or `E`
    /// (where a sign may come), 2 among its digits.
    pub exp_state: nat,
    /// The digits of the current exponent so far.
    pub exp_len: nat,
    /// Whether a chain of keys, an exponent or the nesting went over its
    /// limit.
    pub failed: bool,
}

pub open spec fn start_scan() -> ScanModel {
    ScanModel {
        levels: Seq::empty(),
        in_str: false,
        esc: 0,
        hex: 0,
        str_len: 0,
        pending: None,
        exp_state: 0,
        exp_len: 0,
        failed: false,
    }
}

/// The value of a hex digit (the parser refuses any other character).
pub open spec fn hex_value(c: char) -> nat {
    if '0' <= c && c <= '9' {
        (c as u32 - '0' as u32) as nat
    } else if 'a' <= c && c <= 'f' {
        (c as u32 - 'a' as u32 + 10) as nat
    } else if 'A' <= c && c <= 'F' {
        (c as u32 - 'A' as u32 + 10) as nat
    } else {
        0
    }
}

/// The bytes of a character in UTF-8.
pub open spec fn utf8_len(c: char) -> nat {
    if (c as u32) < 0x80 {
        1
    } else if (c as u32) < 0x800 {
        2
    } else if (c as u32) < 0x10000 {
        3
    } else {
        4
    }
}

/// The bytes that a `\u` escape of code unit `cp` adds once decoded: a high
/// surrogate and the low one that must follow make one four-byte character.
pub open spec fn escape_len(cp: nat) -> nat {
    if cp < 0x80 {
        1
    } else if cp < 0x800 {
        2
    } else if 0xD800 <= cp && cp <= 0xDBFF {
        4
    } else if 0xDC00 <= cp && cp <= 0xDFFF {
        0
    } else {
        3
    }
}

/// `a + b`, but no more than 65,536.
pub open spec fn capped_add(a: nat, b: nat) -> nat {
    if a + b > 65536 {
        65536
    } else {
        a + b
    }
}

/// The bytes of the keys of all open objects.
pub open spec fn key_total(levels: Seq<(bool, nat)>) -> nat
    decreases levels.len(),
{
    if levels.len() == 0 {
        0
    } else {
        key_total(levels.drop_last()) + levels.last().1
    }
}

/// The white space that JSON allows between tokens.
pub open spec fn is_json_space(c: char) -> bool {
    c == ' ' || c == '\n' || c == '\t' || c == '\r'
}

/// The exponent part of the scan after one more character outside strings:
/// an `e` or `E` starts an exponent (as it also ends `true` and `false`,
/// which no digit may follow), a sign may follow it, and each digit after
/// them counts.
pub open spec fn exp_step(s: ScanModel, c: char) -> ScanModel {
    if c == 'e' || c == 'E' {
        ScanModel { exp_state: 1, exp_len: 0, ..s }
    } else if s.exp_state == 1 && (c == '+' || c == '-') {
        ScanModel { exp_state: 2, ..s }
    } else if s.exp_state >= 1 && '0' <= c && c <= '9' {
        ScanModel {
            exp_state: 2,
            exp_len: s.exp_len + 1,
            failed: s.exp_len + 1 > MAX_EXPONENT_DIGITS,
            ..s
        }
    } else {
        ScanModel { exp_state: 0, ..s }
    }
}

/// The scan after one more character.
pub open spec fn scan_step(s: ScanModel, c: char) -> ScanModel {
    if s.failed {
        s
    } else if s.in_str {
        string_step(s, c)
    } else {
        let e = exp_step(s, c);
        if e.failed {
            e
        } else {
            token_step(e, c)
        }
    }
}

/// The scan after one more character inside a string.
pub open spec fn string_step(s: ScanModel, c: char) -> ScanModel {
    if s.esc == 1 {
        if c == 'u' {
            ScanModel { esc: 2, hex: 0, ..s }
        } else {
            ScanModel { esc: 0, str_len: capped_add(s.str_len, 1), ..s }
        }
    } else if s.esc >= 2 {
        let h = s.hex * 16 + hex_value(c);
        if s.esc >= 5 {
            ScanModel { esc: 0, hex: h, str_len: capped_add(s.str_len, escape_len(h)), ..s }
        } else {
            ScanModel { esc: s.esc + 1, hex: h, ..s }
        }
    } else if c == '\\' {
        ScanModel { esc: 1, ..s }
    } else if c == '"' {
        ScanModel { in_str: false, pending: Some(s.str_len), ..s }
    } else {
        ScanModel { str_len: capped_add(s.str_len, utf8_len(c)), ..s }
    }
}

/// The scan after one more character outside strings, but for exponents.
pub open spec fn token_step(s: ScanModel, c: char) -> ScanModel {
    if c == '"' {
        ScanModel { in_str: true, esc: 0, str_len: 0, pending: None, ..s }
    } else if c == ':' {
        match s.pending {
            Some(k) => if s.levels.len() > 0 && s.levels.last().0 {
                let lv = s.levels.update(s.levels.len() - 1, (true, k));
                ScanModel { levels: lv, pending: None, failed: key_total(lv) > MAX_KEY_CHAIN, ..s }
            } else {
                ScanModel { pending: None, ..s }
            },
            None => s,
        }
    } else if c == '{' || c == '[' {
        let lv = s.levels.push((c == '{', 0));
        ScanModel { levels: lv, pending: None, failed: lv.len() > MAX_DEPTH, ..s }
    } else if c == '}' || c == ']' {
        ScanModel {
            levels: if s.levels.len() > 0 {
                s.levels.drop_last()
            } else {
                s.levels
            },
            pending: None,
            ..s
        }
    } else if is_json_space(c) {
        s
    } else {
        ScanModel { pending: None, ..s }
    }
}

/// The scan after the first `n` characters of `text`.
pub open spec fn scan(text: Seq<char>, n: int) -> ScanModel
    decreases n,
{
    if n <= 0 || n > text.len() {
        start_scan()
    } else {
        scan_step(scan(text, n - 1), text[n - 1])
    }
}

/// Whether the parser can take `text`: along no chain of nested objects do
/// the keys, decoded, total more than 65,535 bytes, and arrays and objects
/// nest at most [`MAX_DEPTH`] deep.
pub open spec fn within_parser_limits(text: Seq<char>) -> bool {
    !scan(text, text.len() as int).failed
}

/// Once failed, a scan stays failed.
proof fn lemma_failed_persists(text: Seq<char>, k: int, n: int)
    requires
        0 <= k <= n <= text.len(),
        scan(text, k).failed,
    ensures
        scan(text, n).failed,
    decreases n - k,
{
    if n > k {
        lemma_failed_persists(text, k, n - 1);
    }
}

/// The running state of the scan.
struct Scanner {
    levels: Vec<(bool, u32)>,
    in_str: bool,
    esc: u8,
    hex: u32,
    str_len: u32,
    pending: Option<u32>,
    exp_state: u8,
    exp_len: u32,
    failed: bool,
    total: u32,
}

spec fn levels_view(v: Seq<(bool, u32)>) -> Seq<(bool, nat)> {
    v.map_values(|p: (bool, u32)| (p.0, p.1 as nat))
}

impl View for Scanner {
    type V = ScanModel;

    closed spec fn view(&self) -> ScanModel {
        ScanModel {
            levels: levels_view(self.levels@),
            in_str: self.in_str,
            esc: self.esc as nat,
            hex: self.hex as nat,
            str_len: self.str_len as nat,
            pending: match self.pending {
                Some(k) => Some(k as nat),
                None => None,
            },
            exp_state: self.exp_state as nat,
            exp_len: self.exp_len as nat,
            failed: self.failed,
        }
    }
}

proof fn lemma_key_total_last(levels: Seq<(bool, nat)>)
    requires
        levels.len() > 0,
    ensures
        key_total(levels) >= levels.last().1,
        key_total(levels) == key_total(levels.drop_last()) + levels.last().1,
{
}

impl Scanner {
    closed spec fn wf(&self) -> bool {
        &&& !self.failed
        &&& self.total as nat == key_total(levels_view(self.levels@))
        &&& self.total <= MAX_KEY_CHAIN
        &&& self.levels@.len() <= MAX_DEPTH
        &&& self.str_len <= 65536
        &&& self.esc <= 5
        &&& self.exp_state <= 2
        &&& self.exp_len <= MAX_EXPONENT_DIGITS
        &&& (self.esc == 2 ==> self.hex == 0)
        &&& (self.esc == 3 ==> self.hex < 16)
        &&& (self.esc == 4 ==> self.hex < 256)
        &&& (self.esc == 5 ==> self.hex < 4096)
        &&& (self.esc <= 1 ==> self.hex <= 0xFFFF)
        &&& (forall|i: int| 0 <= i < self.levels@.len() ==> #[trigger] self.levels@[i].1 <= 65536)
        &&& match self.pending {
            Some(k) => k <= 65536,
            None => true,
        }
    }

    fn new() -> (r: Scanner)
        ensures
            r.wf(),
            r@ == start_scan(),
    {
        let r = Scanner {
            levels: Vec::new(),
            in_str: false,
            esc: 0,
            hex: 0,
            str_len: 0,
            pending: None,
            exp_state: 0,
            exp_len: 0,
            failed: false,
            total: 0,
        };
        assert(levels_view(r.levels@) =~= Seq::empty());
        r
    }

    /// Adds `n` bytes to the current string, stopping at 65,536.
    fn add_len(&mut self, n: u32)
        requires
            old(self).str_len <= 65536,
            n <= 4,
        ensures
            final(self).str_len as nat == capped_add(old(self).str_len as nat, n as nat),
            final(self).levels == old(self).levels,
            final(self).in_str == old(self).in_str,
            final(self).esc == old(self).esc,
            final(self).hex == old(self).hex,
            final(self).pending == old(self).pending,
            final(self).exp_state == old(self).exp_state,
            final(self).exp_len == old(self).exp_len,
            final(self).failed == old(self).failed,
            final(self).total == old(self).total,
    {
        self.str_len = if self.str_len + n > 65536 {
            65536
        } else {
            self.str_len + n
        };
    }

    /// Follows the exponent of a number, as [`exp_step`] says.
    fn exp_step(&mut self, c: char)
        requires
            old(self).wf(),
        ensures
            final(self)@ == exp_step(old(self)@, c),
            !final(self).failed ==> final(self).wf(),
    {
        if c == 'e' || c == 'E' {
            self.exp_state = 1;
            self.exp_len = 0;
        } else if self.exp_state == 1 && (c == '+' || c == '-') {
            self.exp_state = 2;
        } else if self.exp_state >= 1 && '0' <= c && c <= '9' {
            self.exp_state = 2;
            self.exp_len = self.exp_len + 1;
            self.failed = self.exp_len > MAX_EXPONENT_DIGITS;
        } else {
            self.exp_state = 0;
        }
    }

    /// Takes one more character, as [`scan_step`] says.
    fn step(&mut self, c: char)
        requires
            old(self).wf(),
        ensures
            final(self)@ == scan_step(old(self)@, c),
            !final(self).failed ==> final(self).wf(),
    {
        let ghost s = self@;
        if self.in_str {
            if self.esc == 1 {
                if c == 'u' {
                    self.esc = 2;
                    self.hex = 0;
                } else {
                    self.esc = 0;
                    self.add_len(1);
                }
            } else if self.esc >= 2 {
                let d: u32 = if '0' <= c && c <= '9' {
                    (c as u32) - ('0' as u32)
                } else if 'a' <= c && c <= 'f' {
                    (c as u32) - ('a' as u32) + 10
                } else if 'A' <= c && c <= 'F' {
                    (c as u32) - ('A' as u32) + 10
                } else {
                    0
                };
                let h = self.hex * 16 + d;
                self.hex = h;
                if self.esc >= 5 {
                    self.esc = 0;
                    let n: u32 = if h < 0x80 {
                        1
                    } else if h < 0x800 {
                        2
                    } else if 0xD800 <= h && h <= 0xDBFF {
                        4
                    } else if 0xDC00 <= h && h <= 0xDFFF {
                        0
                    } else {
                        3
                    };
                    self.add_len(n);
                } else {
                    self.esc = self.esc + 1;
                }
            } else if c == '\\' {
                self.esc = 1;
            } else if c == '"' {
                self.in_str = false;
                self.pending = Some(self.str_len);
            } else {
                let n: u32 = if (c as u32) < 0x80 {
                    1
                } else if (c as u32) < 0x800 {
                    2
                } else if (c as u32) < 0x10000 {
                    3
                } else {
                    4
                };
                self.add_len(n);
            }
        } else {
            self.exp_step(c);
            if self.failed {
                return;
            }
            self.token_step(c);
        }
    }

    /// Takes one more character outside strings, as [`token_step`] says.
    fn token_step(&mut self, c: char)
        requires
            old(self).wf(),
            !old(self).in_str,
        ensures
            final(self)@ == token_step(old(self)@, c),
            !final(self).failed ==> final(self).wf(),
    {
        let ghost s = self@;
        if c == '"' {
            self.in_str = true;
            self.esc = 0;
            self.str_len = 0;
            self.pending = None;
        } else if c == ':' {
            match self.pending {
                Some(k) => {
                    let len = self.levels.len();
                    if len > 0 && self.levels[len - 1].0 {
                        let old_key = self.levels[len - 1].1;
                        proof {
                            lemma_key_total_last(levels_view(self.levels@));
                        }
                        let ghost before = self.levels@;
                        self.levels.set(len - 1, (true, k));
                        assert(levels_view(self.levels@).drop_last() =~= levels_view(before).drop_last());
                        assert(levels_view(self.levels@) =~= s.levels.update(s.levels.len() - 1, (true, k as nat)));
                        let t: u32 = self.total - old_key + k;
                        self.total = t;
                        self.failed = t > MAX_KEY_CHAIN;
                    }
                    self.pending = None;
                },
                None => {},
            }
        } else if c == '{' || c == '[' {
            let ghost before = self.levels@;
            self.levels.push((c == '{', 0));
            assert(levels_view(self.levels@) =~= s.levels.push((c == '{', 0nat)));
            assert(levels_view(self.levels@).drop_last() =~= levels_view(before));
            self.pending = None;
            self.failed = self.levels.len() > MAX_DEPTH;
        } else if c == '}' || c == ']' {
            if self.levels.len() > 0 {
                proof {
                    lemma_key_total_last(levels_view(self.levels@));
                }
                let ghost before = self.levels@;
                let top = self.levels.pop().unwrap();
                assert(levels_view(self.levels@) =~= levels_view(before).drop_last());
                self.total = self.total - top.1;
            }
            self.pending = None;
        } else if c == ' ' || c == '\n' || c == '\t' || c == '\r' {
        } else {
            self.pending = None;
        }
    }
}

/// Whether the parser can take `text`, as [`within_parser_limits`] says.
pub fn check_parser_limits(text: &str) -> (r: bool)
    ensures
        r == within_parser_limits(text@),
{
    let n = text.unicode_len();
    let mut scanner = Scanner::new();
    let mut i: usize = 0;
    while i < n
        invariant
            n == text@.len(),
            0 <= i <= n,
            scanner.wf(),
            scanner@ == scan(text@, i as int),
        decreases n - i,
    {
        let c = text.get_char(i);
        scanner.step(c);
        if scanner.failed {
            proof {
                lemma_failed_persists(text@, i as int + 1, n as int);
            }
            return false;
        }
        i = i + 1;
    }
    true
}

} // verus!
