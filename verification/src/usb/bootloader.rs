//! The boot loader of the CEE: telling what it is, and writing a program.

use crate::capture::{action_json, others};
use crate::command::{done_or_asking, string_needed, Answer, Ask, AskView, Outcome, OutcomeView};
use crate::effect::{ask, asked, effects, enqueue, send_one, to_one, Effect, EffectView};
use crate::jsonutil::{
    int_at, json_int_prop_def, json_string_prop, members, put_number, put_text, Error, Json,
    JsonTree, Number,
};
use crate::messages::outcome_is;
use crate::state::{action, natural, text};
use crate::text::{chars_of, joined, same};
use crate::usb::{
    ask_one, handle_usb_message, reads, terminated, text_until_zero, usb_command,
};
use crate::wire::{
    from_be32, from_le16, from_le32, read_be32, read_le16, read_le32,
};
use vstd::prelude::*;
use vstd::string::*;

verus! {

/// What a boot loader says of itself.
#[derive(Debug)]
pub struct BootloaderInfo {
    pub magic: u32,
    pub version: u8,
    pub devid: u32,
    pub page_size: u16,
    pub app_section_end: u32,
    pub hw_product: String,
    pub hw_version: String,
}

#[verifier::ext_equal]
pub ghost struct InfoView {
    pub magic: u32,
    pub version: u8,
    pub devid: u32,
    pub page_size: u16,
    pub app_section_end: u32,
    pub hw_product: Seq<char>,
    pub hw_version: Seq<char>,
}

impl View for BootloaderInfo {
    type V = InfoView;

    open spec fn view(&self) -> InfoView {
        InfoView {
            magic: self.magic,
            version: self.version,
            devid: self.devid,
            page_size: self.page_size,
            app_section_end: self.app_section_end,
            hw_product: self.hw_product@,
            hw_version: self.hw_version@,
        }
    }
}

impl InfoView {
    /// What the bytes `d` say; nothing where there are too few of them.
    pub open spec fn told(d: Seq<u8>) -> InfoView {
        if d.len() < 51 {
            InfoView {
                magic: 0,
                version: 0,
                devid: 0,
                page_size: 0,
                app_section_end: 0,
                hw_product: Seq::empty(),
                hw_version: Seq::empty(),
            }
        } else {
            InfoView {
                magic: from_be32(d, 0),
                version: d[4],
                devid: from_be32(d, 5),
                page_size: from_le16(d, 9),
                app_section_end: from_le32(d, 11),
                hw_product: terminated(d.subrange(19, 35)),
                hw_version: terminated(d.subrange(35, 51)),
            }
        }
    }
}

impl BootloaderInfo {
    pub fn from_bytes(d: &[u8]) -> (r: BootloaderInfo)
        ensures
            r@ == InfoView::told(d@),
            d@.len() >= 51 ==> reads(d@.subrange(19, 35), r@.hw_product),
            d@.len() >= 51 ==> reads(d@.subrange(35, 51), r@.hw_version),
    {
        if d.len() < 51 {
            return BootloaderInfo {
                magic: 0,
                version: 0,
                devid: 0,
                page_size: 0,
                app_section_end: 0,
                hw_product: String::new(),
                hw_version: String::new(),
            };
        }
        BootloaderInfo {
            magic: read_be32(d, 0),
            version: d[4],
            devid: read_be32(d, 5),
            page_size: read_le16(d, 9),
            app_section_end: read_le32(d, 11),
            hw_product: text_until_zero(d, 19, 35),
            hw_version: text_until_zero(d, 35, 51),
        }
    }
}

// ---- base64 ----

/// The number that a character of the base64 alphabet stands for.
pub open spec fn sextet(c: char) -> Option<u8> {
    if 'A' <= c <= 'Z' {
        Some((c as int - 'A' as int) as u8)
    } else if 'a' <= c <= 'z' {
        Some((c as int - 'a' as int + 26) as u8)
    } else if '0' <= c <= '9' {
        Some((c as int - '0' as int + 52) as u8)
    } else if c == '+' {
        Some(62u8)
    } else if c == '/' {
        Some(63u8)
    } else {
        None
    }
}

/// Whether a character stands for nothing: white space or padding.
pub open spec fn idle(c: char) -> bool {
    c == ' ' || c == '\t' || c == '\n' || c == '\r' || c == '\u{c}' || c == '='
}

/// The numbers that a text stands for, if all of it stands for something.
pub open spec fn sextets(s: Seq<char>) -> Option<Seq<u8>>
    decreases s.len(),
{
    if s.len() == 0 {
        Some(Seq::empty())
    } else {
        match sextets(s.drop_last()) {
            None => None,
            Some(before) => if idle(s.last()) {
                Some(before)
            } else {
                match sextet(s.last()) {
                    None => None,
                    Some(x) => Some(before.push(x)),
                }
            },
        }
    }
}

/// The byte number `k` of those that numbers of six bits make up.
pub open spec fn byte_of(t: Seq<u8>, k: int) -> u8 {
    let i = (k / 3) * 4 + k % 3;
    if k % 3 == 0 {
        (t[i] * 4 + t[i + 1] / 16) as u8
    } else if k % 3 == 1 {
        ((t[i] % 16) * 16 + t[i + 1] / 4) as u8
    } else {
        ((t[i] % 4) * 64 + t[i + 1]) as u8
    }
}

/// The bytes that numbers of six bits make up.
pub open spec fn bytes_of(t: Seq<u8>) -> Seq<u8> {
    Seq::new((t.len() * 3) / 4, |k: int| byte_of(t, k))
}

/// The bytes that a base64 text stands for: it holds nothing outside the
/// alphabet, and no single character is left over.
pub open spec fn base64_bytes(s: Seq<char>) -> Option<Seq<u8>> {
    match sextets(s) {
        None => None,
        Some(t) => if t.len() % 4 == 1 {
            None
        } else {
            Some(bytes_of(t))
        },
    }
}

fn sextet_of(c: char) -> (r: Option<u8>)
    ensures
        r == sextet(c),
{
    if 'A' <= c && c <= 'Z' {
        Some((c as u32 - 'A' as u32) as u8)
    } else if 'a' <= c && c <= 'z' {
        Some((c as u32 - 'a' as u32 + 26) as u8)
    } else if '0' <= c && c <= '9' {
        Some((c as u32 - '0' as u32 + 52) as u8)
    } else if c == '+' {
        Some(62)
    } else if c == '/' {
        Some(63)
    } else {
        None
    }
}

proof fn lemma_sextets_none(s: Seq<char>, i: int)
    requires
        0 <= i <= s.len(),
        sextets(s.take(i)) is None,
    ensures
        sextets(s) is None,
    decreases s.len(),
{
    if i < s.len() {
        assert(s.drop_last().take(i) =~= s.take(i));
        lemma_sextets_none(s.drop_last(), i);
    } else {
        assert(s.take(i) =~= s);
    }
}

/// Decodes base64; white space and padding may stand anywhere.
pub fn base64_decode(s: &str) -> (r: Option<Vec<u8>>)
    ensures
        match r {
            Some(v) => base64_bytes(s@) == Some(v@),
            None => base64_bytes(s@) is None,
        },
{
    let chars = chars_of(s);
    let mut t: Vec<u8> = Vec::new();
    let mut i: usize = 0;
    assert(chars@.take(0) =~= Seq::empty());
    while i < chars.len()
        invariant
            i <= chars.len(),
            chars@ == s@,
            sextets(s@.take(i as int)) == Some(t@),
            t.len() <= i,
            forall|j: int| 0 <= j < t.len() ==> #[trigger] t@[j] < 64,
        decreases chars.len() - i,
    {
        let c = chars[i];
        assert(s@.take(i + 1).drop_last() =~= s@.take(i as int));
        if !(c == ' ' || c == '\t' || c == '\n' || c == '\r' || c == '\u{c}' || c == '=') {
            match sextet_of(c) {
                None => {
                    proof {
                        lemma_sextets_none(s@, i + 1);
                    }
                    return None;
                },
                Some(x) => {
                    t.push(x);
                },
            }
        }
        i += 1;
    }
    assert(s@.take(i as int) =~= s@);
    if t.len() % 4 == 1 {
        return None;
    }
    let n: usize = t.len() / 4 * 3 + (t.len() % 4) * 3 / 4;
    let mut out: Vec<u8> = Vec::new();
    let mut k: usize = 0;
    while k < n
        invariant
            k <= n,
            n == (t.len() * 3) / 4,
            t.len() % 4 != 1,
            out@ == Seq::new(k as nat, |j: int| byte_of(t@, j)),
            forall|j: int| 0 <= j < t.len() ==> #[trigger] t@[j] < 64,
        decreases n - k,
    {
        let j: usize = k / 3 * 4 + k % 3;
        assert(j + 1 < t.len());
        let a: u8 = t[j];
        let b: u8 = t[j + 1];
        let x: u8 = if k % 3 == 0 {
            a * 4 + b / 16
        } else if k % 3 == 1 {
            (a % 16) * 16 + b / 4
        } else {
            (a % 4) * 64 + b
        };
        out.push(x);
        k += 1;
        assert(out@ =~= Seq::new(k as nat, |j: int| byte_of(t@, j)));
    }
    assert(out@ =~= bytes_of(t@));
    Some(out)
}

/// The numbers of six bits that bytes are written as.
pub open spec fn sextets_of(b: Seq<u8>) -> Seq<u8> {
    let at = |i: int|
        (if 0 <= i < b.len() {
            b[i]
        } else {
            0u8
        });
    Seq::new(
        (b.len() * 4 + 2) / 3,
        |k: int|
            {
                let i = (k / 4) * 3 + k % 4;
                if k % 4 == 0 {
                    (at(i) / 4) as u8
                } else if k % 4 == 1 {
                    ((at(i - 1) % 4) * 16 + at(i) / 16) as u8
                } else if k % 4 == 2 {
                    ((at(i - 1) % 16) * 4 + at(i) / 64) as u8
                } else {
                    (at(i - 1) % 64) as u8
                }
            },
    )
}

proof fn lemma_byte_back(b: Seq<u8>, k: int)
    requires
        0 <= k < b.len(),
    ensures
        byte_of(sextets_of(b), k) == b[k],
{
    let t = sextets_of(b);
    let q = k / 3;
    let x = b[k];
    if k % 3 == 0 {
        let i = 4 * q;
        assert(k == 3 * q);
        assert(i / 4 == q && i % 4 == 0 && (i + 1) / 4 == q && (i + 1) % 4 == 1);
        assert(t[i] == x / 4);
        assert(t[i + 1] / 16 == x % 4);
    } else if k % 3 == 1 {
        let i = 4 * q + 1;
        assert(k == 3 * q + 1);
        assert(i / 4 == q && i % 4 == 1 && (i + 1) / 4 == q && (i + 1) % 4 == 2);
        assert(t[i] % 16 == x / 16);
        assert(t[i + 1] / 4 == x % 16);
    } else {
        let i = 4 * q + 2;
        assert(k == 3 * q + 2);
        assert(i / 4 == q && i % 4 == 2 && (i + 1) / 4 == q && (i + 1) % 4 == 3);
        assert(t[i] % 4 == x / 64);
        assert(t[i + 1] == x % 64);
    }
}

/// The character of the base64 alphabet that stands for a number.
pub open spec fn sextet_char(x: u8) -> char {
    if x < 26 {
        (x + 'A' as int) as char
    } else if x < 52 {
        (x - 26 + 'a' as int) as char
    } else if x < 62 {
        (x - 52 + '0' as int) as char
    } else if x == 62 {
        '+'
    } else {
        '/'
    }
}

/// Bytes as base64 text, without padding.
pub open spec fn base64_text(b: Seq<u8>) -> Seq<char> {
    sextets_of(b).map_values(|x: u8| sextet_char(x))
}

proof fn lemma_sextets_written(t: Seq<u8>)
    requires
        forall|i: int| 0 <= i < t.len() ==> #[trigger] t[i] < 64,
    ensures
        sextets(t.map_values(|x: u8| sextet_char(x))) == Some(t),
    decreases t.len(),
{
    let s = t.map_values(|x: u8| sextet_char(x));
    if t.len() > 0 {
        let u = t.drop_last();
        assert forall|i: int| 0 <= i < u.len() implies #[trigger] u[i] < 64 by {
            assert(u[i] == t[i]);
        }
        lemma_sextets_written(u);
        assert(s.drop_last() =~= u.map_values(|x: u8| sextet_char(x)));
        assert(t.last() < 64);
        assert(sextet(sextet_char(t.last())) == Some(t.last()));
        assert(!idle(sextet_char(t.last())));
        assert(u.push(t.last()) =~= t);
    } else {
        assert(t =~= Seq::empty());
    }
}

proof fn lemma_sextet_small(b: Seq<u8>, k: int)
    requires
        0 <= k < sextets_of(b).len(),
    ensures
        sextets_of(b)[k] < 64,
{
    let i = (k / 4) * 3 + k % 4;
    let x = if 0 <= i < b.len() {
        b[i]
    } else {
        0u8
    };
    let y = if 0 <= i - 1 < b.len() {
        b[i - 1]
    } else {
        0u8
    };
    if k % 4 == 0 {
        assert(sextets_of(b)[k] == (x / 4) as u8);
    } else if k % 4 == 1 {
        assert(sextets_of(b)[k] == ((y % 4) * 16 + x / 16) as u8);
    } else if k % 4 == 2 {
        assert(sextets_of(b)[k] == ((y % 16) * 4 + x / 64) as u8);
    } else {
        assert(sextets_of(b)[k] == (y % 64) as u8);
    }
}

proof fn lemma_bytes_back(b: Seq<u8>)
    ensures
        bytes_of(sextets_of(b)) == b,
        sextets_of(b).len() % 4 != 1,
{
    assert(sextets_of(b).len() == (b.len() * 4 + 2) / 3);
    assert(bytes_of(sextets_of(b)).len() == b.len());
    assert forall|k: int| 0 <= k < b.len() implies bytes_of(sextets_of(b))[k] == b[k] by {
        lemma_byte_back(b, k);
    }
    assert(bytes_of(sextets_of(b)) =~= b);
}

proof fn lemma_sextets_back(b: Seq<u8>)
    ensures
        sextets(base64_text(b)) == Some(sextets_of(b)),
{
    assert forall|i: int| 0 <= i < sextets_of(b).len() implies #[trigger] sextets_of(b)[i] < 64 by {
        lemma_sextet_small(b, i);
    }
    lemma_sextets_written(sextets_of(b));
}

/// Bytes that were written in base64 are read back.
pub proof fn law_base64_reads_back(b: Seq<u8>)
    ensures
        base64_bytes(base64_text(b)) == Some(b),
{
    lemma_bytes_back(b);
    lemma_sextets_back(b);
}

/// White space and padding may stand anywhere in a base64 text, and make no
/// difference.
pub proof fn law_idle_characters_do_not_count(a: Seq<char>, c: char, b: Seq<char>)
    requires
        idle(c),
    ensures
        base64_bytes(a.push(c) + b) == base64_bytes(a + b),
{
    lemma_idle(a, c, b);
}

proof fn lemma_idle(a: Seq<char>, c: char, b: Seq<char>)
    requires
        idle(c),
    ensures
        sextets(a.push(c) + b) == sextets(a + b),
    decreases b.len(),
{
    if b.len() == 0 {
        assert(a.push(c) + b =~= a.push(c));
        assert(a + b =~= a);
        assert(a.push(c).drop_last() =~= a);
    } else {
        lemma_idle(a, c, b.drop_last());
        assert((a.push(c) + b).drop_last() =~= a.push(c) + b.drop_last());
        assert((a + b).drop_last() =~= a + b.drop_last());
    }
}

// ---- the device ----

#[derive(Debug)]
pub struct BootloaderDevice {
    pub serial: String,
    pub info: BootloaderInfo,
    /// The attached clients.
    pub connections: Vec<u64>,
    /// What is to be done, in order.
    pub out: Vec<Effect>,
}

#[verifier::ext_equal]
pub ghost struct BootView {
    pub serial: Seq<char>,
    pub info: InfoView,
    pub connections: Seq<u64>,
    pub out: Seq<EffectView>,
}

impl View for BootloaderDevice {
    type V = BootView;

    open spec fn view(&self) -> BootView {
        BootView {
            serial: self.serial@,
            info: self.info@,
            connections: self.connections@,
            out: effects(self.out@),
        }
    }
}

/// A hexadecimal digit.
pub open spec fn hex_digit(x: int) -> char {
    if x < 10 {
        (x + '0' as int) as char
    } else {
        (x - 10 + 'A' as int) as char
    }
}

/// The sixteenth powers that the digits of eight count.
pub open spec fn hex_weight(i: int) -> int
    decreases 7 - i,
{
    if i >= 7 {
        1
    } else {
        16 * hex_weight(i + 1)
    }
}

/// A number as eight hexadecimal digits.
pub open spec fn hex8(x: u32) -> Seq<char> {
    Seq::new(8, |i: int| hex_digit((x as int / hex_weight(i)) % 16))
}

fn hex_digit_of(x: u32) -> (c: char)
    requires
        x < 16,
    ensures
        c == hex_digit(x as int),
{
    if x < 10 {
        (x as u8 + '0' as u8) as char
    } else {
        (x as u8 - 10 + 'A' as u8) as char
    }
}

fn hex_text(x: u32) -> (r: String)
    ensures
        r@ == hex8(x),
{
    proof {
        reveal_with_fuel(hex_weight, 9);
    }
    let mut r = String::new();
    r.push(hex_digit_of((x / 0x1000_0000) % 16));
    r.push(hex_digit_of((x / 0x100_0000) % 16));
    r.push(hex_digit_of((x / 0x10_0000) % 16));
    r.push(hex_digit_of((x / 0x1_0000) % 16));
    r.push(hex_digit_of((x / 0x1000) % 16));
    r.push(hex_digit_of((x / 0x100) % 16));
    r.push(hex_digit_of((x / 0x10) % 16));
    r.push(hex_digit_of(x % 16));
    assert(r@ =~= hex8(x));
    r
}

impl BootView {
    /// What a client is told of the boot loader.
    pub open spec fn info_message(self) -> JsonTree {
        JsonTree::Object(
            seq![
                text("_action"@, "info"@),
                text("serial"@, self.serial),
                text("magic"@, hex8(self.info.magic)),
                natural("version"@, self.info.version as u64),
                text("devid"@, hex8(self.info.devid)),
                natural("page_size"@, self.info.page_size as u64),
                natural("app_section_end"@, self.info.app_section_end as u64),
                text("hw_product"@, self.info.hw_product),
                text("hw_version"@, self.info.hw_version),
            ],
        )
    }

    pub open spec fn attached(self, client: u64) -> BootView {
        BootView {
            connections: self.connections.push(client),
            out: self.out.push(to_one(client, self.info_message())),
            ..self
        }
    }

    pub open spec fn telling(self, message: JsonTree) -> BootView {
        BootView {
            out: self.out.push(EffectView::Send { clients: self.connections, message }),
            ..self
        }
    }

    /// What a command leads to.
    pub open spec fn command(self, client: u64, cmd: Seq<char>, n: JsonTree) -> (
        BootView,
        Result<OutcomeView, Seq<char>>,
    ) {
        let id = int_at(n, "id"@).unwrap_or(0);
        if cmd == "erase"@ {
            (
                self,
                Ok(
                    OutcomeView::Ask(
                        AskView {
                            client,
                            id,
                            answer: Answer::Done,
                            requests: seq![asked(0xB1, 0, 0, 0)],
                            bulk: None,
                        },
                    ),
                ),
            )
        } else if cmd == "write"@ {
            match string_needed(n, "data"@) {
                Err(m) => (self, Err(m)),
                Ok(s) => match base64_bytes(s) {
                    None => (self, Err("Invalid base64 data"@)),
                    Some(b) => (
                        self,
                        Ok(
                            OutcomeView::Ask(
                                AskView {
                                    client,
                                    id,
                                    answer: Answer::Result,
                                    requests: seq![asked(0xB2, 0, 0, 0)],
                                    bulk: Some(b),
                                },
                            ),
                        ),
                    ),
                },
            }
        } else if cmd == "crc_app"@ || cmd == "crc_boot"@ {
            (
                self,
                Ok(
                    OutcomeView::Ask(
                        AskView {
                            client,
                            id,
                            answer: Answer::Crc,
                            requests: seq![
                                asked(
                                    if cmd == "crc_app"@ {
                                        0xB3
                                    } else {
                                        0xB4
                                    },
                                    0,
                                    0,
                                    64,
                                ),
                            ],
                            bulk: None,
                        },
                    ),
                ),
            )
        } else if cmd == "reset"@ {
            (
                BootView {
                    out: self.out.push(EffectView::Control(asked(0xBF, 0, 0, 0))),
                    ..self
                },
                Ok(OutcomeView::Handled),
            )
        } else {
            let (todo, r) = usb_command(client, cmd, n);
            (BootView { out: self.out + todo, ..self }, r)
        }
    }
}

impl BootloaderDevice {
    /// Makes a device. `info` is what it told of itself.
    pub fn new(serial: &str, info: &[u8]) -> (r: BootloaderDevice)
        ensures
            r@ == (BootView {
                serial: serial@,
                info: InfoView::told(info@),
                connections: Seq::empty(),
                out: Seq::empty(),
            }),
    {
        let r = BootloaderDevice {
            serial: serial.to_owned(),
            info: BootloaderInfo::from_bytes(info),
            connections: Vec::new(),
            out: Vec::new(),
        };
        assert(r@.connections =~= Seq::empty());
        assert(r@.out =~= Seq::empty());
        r
    }

    pub fn model(&self) -> (r: String)
        ensures
            r@ == "com.nonolithlabs.bootloader"@,
    {
        "com.nonolithlabs.bootloader".to_owned()
    }

    pub fn hw_version(&self) -> (r: String)
        ensures
            r@ == self@.info.hw_product + " "@ + self@.info.hw_version,
    {
        joined(joined(self.info.hw_product.as_str(), " ").as_str(), self.info.hw_version.as_str())
    }

    pub fn broadcast_json(&mut self, message: Json)
        ensures
            final(self)@ == old(self)@.telling(message@),
    {
        let mut clients: Vec<u64> = Vec::new();
        let mut i: usize = 0;
        while i < self.connections.len()
            invariant
                i <= self.connections.len(),
                *self == *old(self),
                clients@ == self.connections@.take(i as int),
            decreases self.connections.len() - i,
        {
            clients.push(self.connections[i]);
            i += 1;
            assert(clients@ =~= self.connections@.take(i as int));
        }
        assert(clients@ =~= self.connections@);
        enqueue(&mut self.out, Effect::Send { clients, message });
    }

    pub fn on_client_attach(&mut self, client: u64)
        ensures
            final(self)@ == old(self)@.attached(client),
    {
        let mut n: Vec<(String, Json)> = Vec::new();
        put_text(&mut n, "_action", "info");
        put_text(&mut n, "serial", self.serial.as_str());
        put_text(&mut n, "magic", hex_text(self.info.magic).as_str());
        put_number(&mut n, "version", Number::Unsigned(self.info.version as u64));
        put_text(&mut n, "devid", hex_text(self.info.devid).as_str());
        put_number(&mut n, "page_size", Number::Unsigned(self.info.page_size as u64));
        put_number(&mut n, "app_section_end", Number::Unsigned(self.info.app_section_end as u64));
        put_text(&mut n, "hw_product", self.info.hw_product.as_str());
        put_text(&mut n, "hw_version", self.info.hw_version.as_str());
        assert(members(n@) =~= self@.info_message()->Object_0);
        self.connections.push(client);
        send_one(&mut self.out, client, Json::Object(n));
    }

    pub fn on_client_detach(&mut self, client: u64)
        ensures
            final(self)@ == (BootView {
                connections: others(old(self)@.connections, client),
                ..old(self)@
            }),
    {
        let mut kept: Vec<u64> = Vec::new();
        let mut i: usize = 0;
        assert(self.connections@.take(0) =~= Seq::empty());
        while i < self.connections.len()
            invariant
                i <= self.connections.len(),
                *self == *old(self),
                kept@ == others(self.connections@.take(i as int), client),
            decreases self.connections.len() - i,
        {
            assert(self.connections@.take(i + 1).drop_last() =~= self.connections@.take(i as int));
            if self.connections[i] != client {
                kept.push(self.connections[i]);
            }
            i += 1;
        }
        assert(self.connections@.take(i as int) =~= self.connections@);
        self.connections = kept;
    }

    /// The hardware was taken away.
    pub fn on_disconnect(&mut self)
        ensures
            final(self)@ == old(self)@.telling(action("deviceDisconnected"@)),
    {
        self.broadcast_json(action_json("deviceDisconnected"));
    }

    /// Handles a command of a client.
    pub fn process_message(&mut self, client: u64, cmd: &str, n: &Json) -> (r: Result<
        Outcome,
        Error,
    >)
        ensures
            final(self)@ == old(self)@.command(client, cmd@, n@).0,
            outcome_is(r, old(self)@.command(client, cmd@, n@).1),
            done_or_asking(r),
    {
        let id = json_int_prop_def(n, "id", 0);
        if same(cmd, "erase") {
            Ok(Outcome::Ask(ask_one(client, id, Answer::Done, ask(0xB1, 0, 0, 0))))
        } else if same(cmd, "write") {
            let data = match json_string_prop(n, "data") {
                Ok(s) => s,
                Err(e) => return Err(e),
            };
            match base64_decode(data.as_str()) {
                None => Err(Error::new("Invalid base64 data")),
                Some(b) => {
                    let mut a = ask_one(client, id, Answer::Result, ask(0xB2, 0, 0, 0));
                    a.bulk = Some(b);
                    Ok(Outcome::Ask(a))
                },
            }
        } else if same(cmd, "crc_app") {
            Ok(Outcome::Ask(ask_one(client, id, Answer::Crc, ask(0xB3, 0, 0, 64))))
        } else if same(cmd, "crc_boot") {
            Ok(Outcome::Ask(ask_one(client, id, Answer::Crc, ask(0xB4, 0, 0, 64))))
        } else if same(cmd, "reset") {
            enqueue(&mut self.out, Effect::Control(ask(0xBF, 0, 0, 0)));
            Ok(Outcome::Handled)
        } else {
            handle_usb_message(&mut self.out, client, cmd, n)
        }
    }
}

} // verus!
