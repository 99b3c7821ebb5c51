//! Typed interfaces for parts that came with plain pins: conservative inference from pin
//! names, and an explicit overlay for everything inference leaves alone.
//!
//! A shared bus line is driven by whichever side is the controller, which a pin name
//! cannot tell, so every bus signal is bidirectional and mates straight. The one crossed,
//! single-driver link (UART) keeps its directions.

use crate::coord::Point;
use crate::names;
use crate::names::NameMap;
use crate::part;
use crate::part::{Dir, IfaceV, InterfaceDef, PartDef, PartV, PinDef, PinV};
use crate::text;
use crate::text::{cat, cat3, chars_of, clone_pairs, debug_string, slice_string, str_eq};
use vstd::prelude::*;

verus! {

/// One built-in interface: its signals and their directions, how two instances mate, and
/// which upper-case pin names stand for which signal.
#[derive(Debug, PartialEq, Eq)]
pub struct IfacePattern {
    pub kind: String,
    pub signals: Vec<(String, Dir)>,
    pub mate: Vec<(String, String)>,
    pub aliases: Vec<(String, String)>,
}

/// A pattern as a value.
#[verifier::ext_equal]
pub struct PatternV {
    pub kind: Seq<char>,
    pub signals: Seq<(Seq<char>, Dir)>,
    pub mate: Seq<(Seq<char>, Seq<char>)>,
    pub aliases: Seq<(Seq<char>, Seq<char>)>,
}

/// Signals as values.
pub open spec fn signal_views(v: Seq<(String, Dir)>) -> Seq<(Seq<char>, Dir)> {
    Seq::new(v.len(), |i: int| (v[i].0@, v[i].1))
}

impl View for IfacePattern {
    type V = PatternV;

    open spec fn view(&self) -> PatternV {
        PatternV {
            kind: self.kind@,
            signals: signal_views(self.signals@),
            mate: text::str_pairs(self.mate@),
            aliases: text::str_pairs(self.aliases@),
        }
    }
}

/// The values of a list of patterns.
pub open spec fn pattern_views(v: Seq<IfacePattern>) -> Seq<PatternV> {
    Seq::new(v.len(), |i: int| v[i]@)
}

// ---------------------------------------------------------------------------
// The built-in interfaces.
// ---------------------------------------------------------------------------

/// UART: crossed, each sender drives the other side's receiver.
pub open spec fn uart_pattern() -> PatternV {
    PatternV {
        kind: "UART"@,
        signals: seq![("tx"@, Dir::Out), ("rx"@, Dir::In)],
        mate: seq![("tx"@, "rx"@), ("rx"@, "tx"@)],
        aliases: seq![
            ("TX"@, "tx"@),
            ("TXD"@, "tx"@),
            ("UART_TX"@, "tx"@),
            ("UART_TXD"@, "tx"@),
            ("RX"@, "rx"@),
            ("RXD"@, "rx"@),
            ("UART_RX"@, "rx"@),
            ("UART_RXD"@, "rx"@),
        ],
    }
}

/// SPI: a shared clock and data, straight by name.
pub open spec fn spi_pattern() -> PatternV {
    PatternV {
        kind: "SPI"@,
        signals: seq![
            ("sck"@, Dir::Bidir),
            ("mosi"@, Dir::Bidir),
            ("miso"@, Dir::Bidir),
            ("cs"@, Dir::Bidir),
        ],
        mate: seq![
            ("sck"@, "sck"@),
            ("mosi"@, "mosi"@),
            ("miso"@, "miso"@),
            ("cs"@, "cs"@),
        ],
        aliases: seq![
            ("SCK"@, "sck"@),
            ("SCLK"@, "sck"@),
            ("SPI_SCK"@, "sck"@),
            ("SPI_CLK"@, "sck"@),
            ("MOSI"@, "mosi"@),
            ("SDO"@, "mosi"@),
            ("SPI_MOSI"@, "mosi"@),
            ("MISO"@, "miso"@),
            ("SDI"@, "miso"@),
            ("SPI_MISO"@, "miso"@),
            ("CS"@, "cs"@),
            ("NSS"@, "cs"@),
            ("SS"@, "cs"@),
            ("SPI_CS"@, "cs"@),
        ],
    }
}

/// I2C: two shared lines, straight by name.
pub open spec fn i2c_pattern() -> PatternV {
    PatternV {
        kind: "I2C"@,
        signals: seq![("sda"@, Dir::Bidir), ("scl"@, Dir::Bidir)],
        mate: seq![("sda"@, "sda"@), ("scl"@, "scl"@)],
        aliases: seq![
            ("SDA"@, "sda"@),
            ("I2C_SDA"@, "sda"@),
            ("SCL"@, "scl"@),
            ("I2C_SCL"@, "scl"@),
        ],
    }
}

/// SWD: data and clock, straight by name.
pub open spec fn swd_pattern() -> PatternV {
    PatternV {
        kind: "SWD"@,
        signals: seq![("swdio"@, Dir::Bidir), ("swclk"@, Dir::Bidir)],
        mate: seq![("swdio"@, "swdio"@), ("swclk"@, "swclk"@)],
        aliases: seq![
            ("SWDIO"@, "swdio"@),
            ("SWD_IO"@, "swdio"@),
            ("SWCLK"@, "swclk"@),
            ("SWDCLK"@, "swclk"@),
            ("SWD_CLK"@, "swclk"@),
        ],
    }
}

/// The built-in interfaces, in the order they are tried.
pub open spec fn patterns() -> Seq<PatternV> {
    seq![uart_pattern(), spi_pattern(), i2c_pattern(), swd_pattern()]
}

fn pair(a: &str, b: &str) -> (r: (String, String))
    ensures
        r.0@ == a@,
        r.1@ == b@,
{
    (a.to_owned(), b.to_owned())
}

fn signal(a: &str, d: Dir) -> (r: (String, Dir))
    ensures
        r.0@ == a@,
        r.1 == d,
{
    (a.to_owned(), d)
}

fn uart() -> (r: IfacePattern)
    ensures
        r@ == uart_pattern(),
{
    let r = IfacePattern {
        kind: "UART".to_owned(),
        signals: vec![signal("tx", Dir::Out), signal("rx", Dir::In)],
        mate: vec![pair("tx", "rx"), pair("rx", "tx")],
        aliases: vec![
            pair("TX", "tx"),
            pair("TXD", "tx"),
            pair("UART_TX", "tx"),
            pair("UART_TXD", "tx"),
            pair("RX", "rx"),
            pair("RXD", "rx"),
            pair("UART_RX", "rx"),
            pair("UART_RXD", "rx"),
        ],
    };
    assert(r@.signals =~= uart_pattern().signals);
    assert(r@.mate =~= uart_pattern().mate);
    assert(r@.aliases =~= uart_pattern().aliases);
    r
}

fn spi() -> (r: IfacePattern)
    ensures
        r@ == spi_pattern(),
{
    let r = IfacePattern {
        kind: "SPI".to_owned(),
        signals: vec![
            signal("sck", Dir::Bidir),
            signal("mosi", Dir::Bidir),
            signal("miso", Dir::Bidir),
            signal("cs", Dir::Bidir),
        ],
        mate: vec![
            pair("sck", "sck"),
            pair("mosi", "mosi"),
            pair("miso", "miso"),
            pair("cs", "cs"),
        ],
        aliases: vec![
            pair("SCK", "sck"),
            pair("SCLK", "sck"),
            pair("SPI_SCK", "sck"),
            pair("SPI_CLK", "sck"),
            pair("MOSI", "mosi"),
            pair("SDO", "mosi"),
            pair("SPI_MOSI", "mosi"),
            pair("MISO", "miso"),
            pair("SDI", "miso"),
            pair("SPI_MISO", "miso"),
            pair("CS", "cs"),
            pair("NSS", "cs"),
            pair("SS", "cs"),
            pair("SPI_CS", "cs"),
        ],
    };
    assert(r@.signals =~= spi_pattern().signals);
    assert(r@.mate =~= spi_pattern().mate);
    assert(r@.aliases =~= spi_pattern().aliases);
    r
}

fn i2c() -> (r: IfacePattern)
    ensures
        r@ == i2c_pattern(),
{
    let r = IfacePattern {
        kind: "I2C".to_owned(),
        signals: vec![signal("sda", Dir::Bidir), signal("scl", Dir::Bidir)],
        mate: vec![pair("sda", "sda"), pair("scl", "scl")],
        aliases: vec![
            pair("SDA", "sda"),
            pair("I2C_SDA", "sda"),
            pair("SCL", "scl"),
            pair("I2C_SCL", "scl"),
        ],
    };
    assert(r@.signals =~= i2c_pattern().signals);
    assert(r@.mate =~= i2c_pattern().mate);
    assert(r@.aliases =~= i2c_pattern().aliases);
    r
}

fn swd() -> (r: IfacePattern)
    ensures
        r@ == swd_pattern(),
{
    let r = IfacePattern {
        kind: "SWD".to_owned(),
        signals: vec![signal("swdio", Dir::Bidir), signal("swclk", Dir::Bidir)],
        mate: vec![pair("swdio", "swdio"), pair("swclk", "swclk")],
        aliases: vec![
            pair("SWDIO", "swdio"),
            pair("SWD_IO", "swdio"),
            pair("SWCLK", "swclk"),
            pair("SWDCLK", "swclk"),
            pair("SWD_CLK", "swclk"),
        ],
    };
    assert(r@.signals =~= swd_pattern().signals);
    assert(r@.mate =~= swd_pattern().mate);
    assert(r@.aliases =~= swd_pattern().aliases);
    r
}

/// The built-in interfaces.
pub fn registry() -> (r: Vec<IfacePattern>)
    ensures
        pattern_views(r@) == patterns(),
{
    let r = vec![uart(), spi(), i2c(), swd()];
    assert(pattern_views(r@) =~= patterns());
    r
}

// ---------------------------------------------------------------------------
// Pin names.
// ---------------------------------------------------------------------------

/// An ASCII letter.
pub open spec fn is_letter(c: char) -> bool {
    ('a' <= c && c <= 'z') || ('A' <= c && c <= 'Z')
}

/// An ASCII digit.
pub open spec fn is_digit(c: char) -> bool {
    '0' <= c && c <= '9'
}

/// The end of the run of letters that starts at `i`.
pub open spec fn letters_end(s: Seq<char>, i: int) -> int
    decreases s.len() - i,
{
    if 0 <= i < s.len() && is_letter(s[i]) {
        letters_end(s, i + 1)
    } else {
        i
    }
}

/// The end of the run of digits that starts at `i`.
pub open spec fn digits_end(s: Seq<char>, i: int) -> int
    decreases s.len() - i,
{
    if 0 <= i < s.len() && is_digit(s[i]) {
        digits_end(s, i + 1)
    } else {
        i
    }
}

/// A pin name as an instance index and the rest. Only digits right behind a leading run of
/// letters and right before `_` are an index: `UART0_TX` is instance `0` of `UART_TX`.
pub open spec fn index_and_rest(name: Seq<char>) -> (Seq<char>, Seq<char>) {
    let d = letters_end(name, 0);
    let e = digits_end(name, d);
    if 0 < d < e < name.len() && name[e] == '_' {
        (name.subrange(d, e), name.take(d) + name.skip(e))
    } else {
        (Seq::empty(), name)
    }
}

/// A pin name as an instance index and the upper-case rest.
pub open spec fn instance_of(name: Seq<char>) -> (Seq<char>, Seq<char>) {
    (index_and_rest(name).0, text::uppercase(index_and_rest(name).1))
}

/// A pin name of ASCII characters as an instance index and the upper-case rest.
pub open spec fn ascii_instance_of(name: Seq<char>) -> (Seq<char>, Seq<char>) {
    (
        index_and_rest(name).0,
        index_and_rest(name).1.map_values(|c: char| text::ascii_upper(c)),
    )
}

/// Runs end within the name.
proof fn runs_end(s: Seq<char>, i: int)
    requires
        0 <= i <= s.len(),
    ensures
        i <= letters_end(s, i) <= s.len(),
        i <= digits_end(s, i) <= s.len(),
        forall|j: int| i <= j < digits_end(s, i) ==> is_digit(#[trigger] s[j]),
    decreases s.len() - i,
{
    if i < s.len() {
        runs_end(s, i + 1);
    }
}

/// An instance index is a run of digits, or empty.
pub proof fn instance_is_digits(name: Seq<char>, i: int)
    requires
        0 <= i < instance_of(name).0.len(),
    ensures
        is_digit(instance_of(name).0[i]),
{
    runs_end(name, 0);
    runs_end(name, letters_end(name, 0));
}

/// Split a pin name into its instance index and the rest.
pub fn split_index(name: &str) -> (r: (String, String))
    ensures
        (r.0@, r.1@) == index_and_rest(name@),
{
    let cs = chars_of(name);
    let ghost s = name@;
    let mut i: usize = 0;
    while i < cs.len() && ((cs[i] >= 'a' && cs[i] <= 'z') || (cs[i] >= 'A' && cs[i] <= 'Z'))
        invariant
            i <= cs.len(),
            cs@ == s,
            letters_end(s, 0) == letters_end(s, i as int),
        decreases cs.len() - i,
    {
        i += 1;
    }
    let d0 = i;
    while i < cs.len() && cs[i] >= '0' && cs[i] <= '9'
        invariant
            d0 <= i <= cs.len(),
            cs@ == s,
            digits_end(s, d0 as int) == digits_end(s, i as int),
        decreases cs.len() - i,
    {
        i += 1;
    }
    if d0 > 0 && i > d0 && i < cs.len() && cs[i] == '_' {
        let inst = slice_string(&cs, d0, i);
        let head = slice_string(&cs, 0, d0);
        let tail = slice_string(&cs, i, cs.len());
        let core = cat(head.as_str(), tail.as_str());
        assert(head@ =~= s.take(d0 as int));
        assert(tail@ =~= s.skip(i as int));
        return (inst, core);
    }
    let none = slice_string(&cs, 0, 0);
    assert(none@ =~= Seq::empty());
    (none, name.to_owned())
}

/// Split a pin name into its instance index and the upper-case rest.
pub fn split_instance(name: &str) -> (r: (String, String))
    ensures
        (r.0@, r.1@) == instance_of(name@),
        text::all_ascii(name@) ==> (r.0@, r.1@) == ascii_instance_of(name@),
{
    let (inst, rest) = split_index(name);
    proof {
        if text::all_ascii(name@) {
            runs_end(name@, 0);
            runs_end(name@, letters_end(name@, 0));
            assert(text::all_ascii(rest@)) by {
                let d = letters_end(name@, 0);
                let e = digits_end(name@, d);
                assert forall|i: int| 0 <= i < rest@.len() implies (#[trigger] rest@[i] as u32)
                    < 128 by {
                    if rest@ != name@ {
                        if i < d {
                            assert(rest@[i] == name@[i]);
                        } else {
                            assert(rest@[i] == name@[e + i - d]);
                        }
                    } else {
                        assert(rest@[i] == name@[i]);
                    }
                }
            }
        }
    }
    let core = text::to_uppercase(rest.as_str());
    (inst, core)
}

/// The signal that an upper-case pin name stands for.
pub open spec fn alias_of(aliases: Seq<(Seq<char>, Seq<char>)>, core: Seq<char>) -> Option<
    Seq<char>,
>
    decreases aliases.len(),
{
    if aliases.len() == 0 {
        None
    } else if aliases[0].0 == core {
        Some(aliases[0].1)
    } else {
        alias_of(aliases.skip(1), core)
    }
}

/// The split names of a part's pins: an instance index and an upper-case rest for each.
pub type KeysV = Seq<(Seq<char>, Seq<char>)>;

/// The split names of pins.
pub open spec fn pin_keys(pins: Seq<PinV>) -> KeysV {
    Seq::new(pins.len(), |i: int| instance_of(pins[i].name))
}

/// Does a pin stand for a signal of an instance of a pattern?
pub open spec fn claims(
    key: (Seq<char>, Seq<char>),
    pat: PatternV,
    inst: Seq<char>,
    sig: Seq<char>,
) -> bool {
    key.0 == inst && alias_of(pat.aliases, key.1) == Some(sig)
}

/// Which of the first `k` pins stand for the signal, in order.
pub open spec fn claimants(
    keys: KeysV,
    k: nat,
    pat: PatternV,
    inst: Seq<char>,
    sig: Seq<char>,
) -> Seq<int>
    decreases k,
{
    if k == 0 {
        Seq::empty()
    } else {
        let done = claimants(keys, (k - 1) as nat, pat, inst, sig);
        if claims(keys[k - 1], pat, inst, sig) {
            done.push(k - 1)
        } else {
            done
        }
    }
}

/// A signal has exactly one pin.
pub open spec fn settled(keys: KeysV, pat: PatternV, inst: Seq<char>, i: int) -> bool {
    claimants(keys, keys.len(), pat, inst, pat.signals[i].0).len() == 1
}

/// An instance is complete and unambiguous: each of its signals has exactly one pin.
pub open spec fn matched(keys: KeysV, pat: PatternV, inst: Seq<char>) -> bool {
    forall|i: int| 0 <= i < pat.signals.len() ==> #[trigger] settled(keys, pat, inst, i)
}

/// The claimants are pins of the list that claim the signal.
proof fn claimants_claim(keys: KeysV, k: nat, pat: PatternV, inst: Seq<char>, sig: Seq<char>)
    requires
        k <= keys.len(),
    ensures
        forall|j: int|
            0 <= j < claimants(keys, k, pat, inst, sig).len() ==> {
                let c = #[trigger] claimants(keys, k, pat, inst, sig)[j];
                0 <= c < k && claims(keys[c], pat, inst, sig)
            },
    decreases k,
{
    if k > 0 {
        let done = claimants(keys, (k - 1) as nat, pat, inst, sig);
        let all = claimants(keys, k, pat, inst, sig);
        claimants_claim(keys, (k - 1) as nat, pat, inst, sig);
        assert forall|j: int| 0 <= j < all.len() implies {
            let c = #[trigger] all[j];
            0 <= c < k && claims(keys[c], pat, inst, sig)
        } by {
            if j < done.len() {
                assert(all[j] == done[j]);
            }
        }
    }
}

/// The signals of a pattern as a map, from its first `k`.
pub open spec fn signal_map(signals: Seq<(Seq<char>, Dir)>, k: nat) -> Seq<(Seq<char>, Dir)>
    decreases k,
{
    if k == 0 {
        Seq::empty()
    } else {
        names::put(
            signal_map(signals, (k - 1) as nat),
            signals[k - 1].0,
            signals[k - 1].1,
        )
    }
}

/// The offsets of the first `k` signals as a map.
pub open spec fn offset_map(
    signals: Seq<(Seq<char>, Dir)>,
    offsets: Seq<Point>,
    k: nat,
) -> Seq<(Seq<char>, Point)>
    decreases k,
{
    if k == 0 {
        Seq::empty()
    } else {
        names::put(
            offset_map(signals, offsets, (k - 1) as nat),
            signals[k - 1].0,
            offsets[k - 1],
        )
    }
}

/// An interface of a pattern whose `i`-th signal is at `offsets[i]`.
pub open spec fn assembled(pat: PatternV, offsets: Seq<Point>) -> IfaceV {
    IfaceV {
        kind: pat.kind,
        signals: signal_map(pat.signals, pat.signals.len()),
        offsets: offset_map(pat.signals, offsets, pat.signals.len()),
        mate: pat.mate,
    }
}

/// Where the pins of a matched instance are.
pub open spec fn matched_offsets(
    pins: Seq<PinV>,
    keys: KeysV,
    pat: PatternV,
    inst: Seq<char>,
) -> Seq<Point> {
    Seq::new(
        pat.signals.len(),
        |i: int|
            pins[claimants(keys, keys.len(), pat, inst, pat.signals[i].0)[0]].offset,
    )
}

/// The interface of a matched instance.
pub open spec fn found(pins: Seq<PinV>, keys: KeysV, pat: PatternV, inst: Seq<char>) -> IfaceV {
    assembled(pat, matched_offsets(pins, keys, pat, inst))
}

/// A string with its ASCII capitals made small.
pub open spec fn lowered(s: Seq<char>) -> Seq<char> {
    Seq::new(s.len(), |i: int| text::ascii_lower(s[i]))
}

/// The port name of an instance: the kind in small letters, then the index.
pub open spec fn port_of(kind: Seq<char>, inst: Seq<char>) -> Seq<char> {
    lowered(kind) + inst
}

fn lower_char(c: char) -> (r: char)
    ensures
        r == text::ascii_lower(c),
{
    if c >= 'A' && c <= 'Z' {
        (c as u8 + 32) as char
    } else {
        c
    }
}

fn lower(s: &str) -> (r: String)
    ensures
        r@ == lowered(s@),
{
    let cs = chars_of(s);
    let mut out: Vec<char> = Vec::new();
    let mut i: usize = 0;
    while i < cs.len()
        invariant
            i <= cs.len(),
            cs@ == s@,
            out.len() == i,
            forall|j: int| 0 <= j < i ==> out@[j] == text::ascii_lower(cs@[j]),
        decreases cs.len() - i,
    {
        out.push(lower_char(cs[i]));
        i += 1;
    }
    assert(out@ =~= lowered(s@));
    text::string_of(&out)
}

/// The port name of an instance.
fn port_name(kind: &str, inst: &str) -> (r: String)
    ensures
        r@ == port_of(kind@, inst@),
{
    let k = lower(kind);
    cat(k.as_str(), inst)
}

/// Ports of different interfaces, or of different instances, have different names.
pub proof fn ports_are_distinct(i: int, j: int, a: Seq<char>, b: Seq<char>)
    requires
        0 <= i < patterns().len(),
        0 <= j < patterns().len(),
        port_of(patterns()[i].kind, a) == port_of(patterns()[j].kind, b),
    ensures
        i == j,
        a == b,
{
    reveal_strlit("UART");
    reveal_strlit("SPI");
    reveal_strlit("I2C");
    reveal_strlit("SWD");
    let k = patterns()[i].kind;
    let l = patterns()[j].kind;
    let p = port_of(k, a);
    let q = port_of(l, b);
    assert(p[0] == lowered(k)[0] && p[1] == lowered(k)[1]);
    assert(q[0] == lowered(l)[0] && q[1] == lowered(l)[1]);
    assert(i == j);
    assert(p.skip(k.len() as int) =~= a);
    assert(q.skip(l.len() as int) =~= b);
}

// ---------------------------------------------------------------------------
// Inference.
// ---------------------------------------------------------------------------

fn find_alias<'a>(aliases: &'a Vec<(String, String)>, core: &str) -> (r: Option<&'a String>)
    ensures
        match r {
            Some(s) => alias_of(text::str_pairs(aliases@), core@) == Some(s@),
            None => alias_of(text::str_pairs(aliases@), core@) is None,
        },
{
    let ghost v = text::str_pairs(aliases@);
    let mut i: usize = 0;
    assert(v.skip(0) =~= v);
    while i < aliases.len()
        invariant
            i <= aliases.len(),
            v == text::str_pairs(aliases@),
            alias_of(v, core@) == alias_of(v.skip(i as int), core@),
        decreases aliases.len() - i,
    {
        proof {
            assert(v.skip(i as int)[0] == v[i as int]);
            assert(v.skip(i as int).skip(1) =~= v.skip(i + 1));
        }
        if str_eq(aliases[i].0.as_str(), core) {
            return Some(&aliases[i].1);
        }
        i += 1;
    }
    None
}

/// The pins that stand for a signal.
fn find_claimants(
    keys: &Vec<(String, String)>,
    pat: &IfacePattern,
    inst: &str,
    sig: &str,
) -> (r: Vec<usize>)
    ensures
        r.len() == claimants(text::str_pairs(keys@), keys@.len(), pat@, inst@, sig@).len(),
        forall|j: int|
            0 <= j < r.len() ==> #[trigger] r@[j] == claimants(
                text::str_pairs(keys@),
                keys@.len(),
                pat@,
                inst@,
                sig@,
            )[j],
        forall|j: int| 0 <= j < r.len() ==> (#[trigger] r@[j]) < keys.len(),
{
    let ghost ks = text::str_pairs(keys@);
    let mut out: Vec<usize> = Vec::new();
    let mut i: usize = 0;
    while i < keys.len()
        invariant
            i <= keys.len(),
            ks == text::str_pairs(keys@),
            out.len() == claimants(ks, i as nat, pat@, inst@, sig@).len(),
            forall|j: int|
                0 <= j < out.len() ==> #[trigger] out@[j] == claimants(
                    ks,
                    i as nat,
                    pat@,
                    inst@,
                    sig@,
                )[j],
            forall|j: int| 0 <= j < out.len() ==> (#[trigger] out@[j]) < i,
        decreases keys.len() - i,
    {
        let (own, core) = &keys[i];
        assert(ks[i as int] == (own@, core@));
        if str_eq(own.as_str(), inst) {
            if let Some(s) = find_alias(&pat.aliases, core.as_str()) {
                if str_eq(s.as_str(), sig) {
                    out.push(i);
                }
            }
        }
        i += 1;
    }
    out
}

/// The interface of a pattern with its signals at the given offsets.
fn build_iface(pat: &IfacePattern, offsets: &Vec<Point>) -> (r: InterfaceDef)
    requires
        offsets.len() == pat.signals.len(),
    ensures
        r@ == assembled(pat@, offsets@),
{
    let ghost sigs = pat@.signals;
    let mut signals: NameMap<Dir> = NameMap::new();
    let mut places: NameMap<Point> = NameMap::new();
    let mut i: usize = 0;
    while i < pat.signals.len()
        invariant
            i <= pat.signals.len(),
            offsets.len() == pat.signals.len(),
            sigs == pat@.signals,
            signals@ == signal_map(sigs, i as nat),
            places@ == offset_map(sigs, offsets@, i as nat),
        decreases pat.signals.len() - i,
    {
        let s = &pat.signals[i];
        assert(sigs[i as int] == (s.0@, s.1));
        signals.insert(s.0.clone(), s.1);
        places.insert(s.0.clone(), offsets[i]);
        i += 1;
    }
    InterfaceDef {
        kind: pat.kind.clone(),
        signals,
        offsets: places,
        mate: clone_pairs(&pat.mate),
    }
}

/// The offsets of an instance's pins, when it is complete and unambiguous.
fn match_instance(
    pins: &Vec<PinDef>,
    keys: &Vec<(String, String)>,
    pat: &IfacePattern,
    inst: &str,
) -> (r: Option<Vec<Point>>)
    requires
        keys.len() == pins.len(),
    ensures
        match r {
            Some(o) => matched(text::str_pairs(keys@), pat@, inst@) && o@ == matched_offsets(
                part::pin_views(pins@),
                text::str_pairs(keys@),
                pat@,
                inst@,
            ),
            None => !matched(text::str_pairs(keys@), pat@, inst@),
        },
{
    let ghost ps = part::pin_views(pins@);
    let ghost ks = text::str_pairs(keys@);
    let ghost want = matched_offsets(ps, ks, pat@, inst@);
    let mut out: Vec<Point> = Vec::new();
    let mut i: usize = 0;
    while i < pat.signals.len()
        invariant
            i <= pat.signals.len(),
            keys.len() == pins.len(),
            ps == part::pin_views(pins@),
            ks == text::str_pairs(keys@),
            want == matched_offsets(ps, ks, pat@, inst@),
            out.len() == i,
            forall|j: int| 0 <= j < i ==> #[trigger] settled(ks, pat@, inst@, j),
            forall|j: int| 0 <= j < i ==> #[trigger] out@[j] == want[j],
        decreases pat.signals.len() - i,
    {
        let sig = &pat.signals[i].0;
        assert(pat@.signals[i as int].0 == sig@);
        let c = find_claimants(keys, pat, inst, sig.as_str());
        if c.len() != 1 {
            assert(!settled(ks, pat@, inst@, i as int));
            return None;
        }
        assert(settled(ks, pat@, inst@, i as int));
        let at = pins[c[0]].offset;
        assert(ps[c@[0] as int].offset == at);
        out.push(at);
        i += 1;
    }
    assert(out@ =~= want);
    Some(out)
}

/// What inference adds to a part's interfaces: every port already there is kept; each
/// matched instance whose port name is free is attached; nothing else.
pub open spec fn inferred(
    pins: Seq<PinV>,
    keys: KeysV,
    before: Seq<(Seq<char>, IfaceV)>,
    after: Seq<(Seq<char>, IfaceV)>,
) -> bool {
    &&& forall|k: Seq<char>|
        names::has(before, k) ==> #[trigger] names::lookup(after, k) == names::lookup(before, k)
    &&& forall|i: int, inst: Seq<char>|
        0 <= i < patterns().len() && #[trigger] matched(keys, patterns()[i], inst) && !names::has(
            before,
            port_of(patterns()[i].kind, inst),
        ) ==> names::lookup(after, port_of(patterns()[i].kind, inst)) == Some(
            found(pins, keys, patterns()[i], inst),
        )
    &&& forall|k: Seq<char>| #[trigger]
        names::has(after, k) && !names::has(before, k) ==> is_matched_port(keys, k)
}

/// `k` is the port name of a matched instance.
pub open spec fn is_matched_port(keys: KeysV, k: Seq<char>) -> bool {
    exists|i: int, inst: Seq<char>|
        0 <= i < patterns().len() && #[trigger] matched(keys, patterns()[i], inst) && k == port_of(
            patterns()[i].kind,
            inst,
        )
}

/// `k` is the port name of a matched instance, and `v` its interface.
spec fn shows(pins: Seq<PinV>, keys: KeysV, k: Seq<char>, v: Option<IfaceV>) -> bool {
    exists|i: int, inst: Seq<char>|
        0 <= i < patterns().len() && #[trigger] matched(keys, patterns()[i], inst) && k == port_of(
            patterns()[i].kind,
            inst,
        ) && v == Some(found(pins, keys, patterns()[i], inst))
}

/// A matched instance is the index of one of the pins' names.
proof fn matched_is_some_pins_instance(keys: KeysV, i: int, inst: Seq<char>)
    requires
        0 <= i < patterns().len(),
        matched(keys, patterns()[i], inst),
    ensures
        exists|k: int| 0 <= k < keys.len() && (#[trigger] keys[k]).0 == inst,
{
    let pat = patterns()[i];
    let sig = pat.signals[0].0;
    assert(settled(keys, pat, inst, 0));
    claimants_claim(keys, keys.len(), pat, inst, sig);
    let c = claimants(keys, keys.len(), pat, inst, sig)[0];
    assert(keys[c].0 == inst);
}

/// The instance of pin `k` was tried with pattern `i` within the first `a` patterns and
/// the first `b` pins of the next.
spec fn tried(i: int, k: int, a: int, b: int) -> bool {
    i < a || (i == a && k < b)
}

/// Attach the interfaces that split pin names show beyond doubt; `split` holds the
/// instance index and the upper-case rest of each pin's name.
pub fn infer_from_names(part: &mut PartDef, split: &Vec<(String, String)>) -> (r: usize)
    requires
        split@.len() == old(part)@.pins.len(),
    ensures
        names::sorted(final(part)@.interfaces),
        inferred(
            old(part)@.pins,
            text::str_pairs(split@),
            old(part)@.interfaces,
            final(part)@.interfaces,
        ),
        r == final(part)@.interfaces.len() - old(part)@.interfaces.len(),
        final(part)@ == (PartV { interfaces: final(part)@.interfaces, ..old(part)@ }),
{
    let reg = registry();
    let ghost old_part = part@;
    let ghost pins = part@.pins;
    let ghost keys = text::str_pairs(split@);
    let ghost before = part@.interfaces;
    part.interfaces.ordered();
    let start = part.interfaces.len();
    let mut a: usize = 0;
    assert(reg.len() == patterns().len());
    while a < reg.len()
        invariant
            a <= reg.len(),
            reg.len() == patterns().len(),
            pattern_views(reg@) == patterns(),
            names::sorted(before),
            names::sorted(part@.interfaces),
            before.len() == start,
            part@.interfaces.len() >= start,
            part@ == (PartV { interfaces: part@.interfaces, ..old_part }),
            pins == old_part.pins,
            keys == text::str_pairs(split@),
            keys.len() == pins.len(),
            forall|k: Seq<char>|
                names::has(before, k) ==> #[trigger] names::lookup(part@.interfaces, k)
                    == names::lookup(before, k),
            forall|i: int, k: int|
                #![trigger matched(keys, patterns()[i], keys[k].0)]
                0 <= i < a && 0 <= k < pins.len() && matched(
                    keys,
                    patterns()[i],
                    keys[k].0,
                ) && !names::has(before, port_of(patterns()[i].kind, keys[k].0))
                    ==> names::lookup(
                    part@.interfaces,
                    port_of(patterns()[i].kind, keys[k].0),
                ) == Some(found(pins, keys, patterns()[i], keys[k].0)),
            forall|k: Seq<char>| #[trigger]
                names::has(part@.interfaces, k) && !names::has(before, k) ==> shows(
                    pins,
                    keys,
                    k,
                    names::lookup(part@.interfaces, k),
                ),
        decreases reg.len() - a,
    {
        let pat = &reg[a];
        assert(patterns()[a as int] == pat@);
        let mut b: usize = 0;
        while b < part.pins.len()
            invariant
                b <= part.pins.len(),
                a < reg.len(),
                reg.len() == patterns().len(),
                patterns()[a as int] == pat@,
                names::sorted(before),
                names::sorted(part@.interfaces),
                before.len() == start,
                part@.interfaces.len() >= start,
                part@ == (PartV { interfaces: part@.interfaces, ..old_part }),
                pins == old_part.pins,
                pins == part@.pins,
                pins.len() == part.pins.len(),
                keys == text::str_pairs(split@),
                keys.len() == pins.len(),
                forall|k: Seq<char>|
                    names::has(before, k) ==> #[trigger] names::lookup(part@.interfaces, k)
                        == names::lookup(before, k),
                forall|i: int, k: int|
                    #![trigger matched(keys, patterns()[i], keys[k].0)]
                    0 <= i && tried(i, k, a as int, b as int) && 0 <= k < pins.len() && matched(
                        keys,
                        patterns()[i],
                        keys[k].0,
                    ) && !names::has(
                        before,
                        port_of(patterns()[i].kind, keys[k].0),
                    ) ==> names::lookup(
                        part@.interfaces,
                        port_of(patterns()[i].kind, keys[k].0),
                    ) == Some(found(pins, keys, patterns()[i], keys[k].0)),
                forall|k: Seq<char>| #[trigger]
                    names::has(part@.interfaces, k) && !names::has(before, k) ==> shows(
                        pins,
                        keys,
                        k,
                        names::lookup(part@.interfaces, k),
                    ),
            decreases part.pins.len() - b,
        {
            let ghost seen = part@.interfaces;
            let inst = &split[b].0;
            assert(keys[b as int].0 == inst@);
            let port = port_name(pat.kind.as_str(), inst.as_str());
            let hit = match_instance(&part.pins, split, pat, inst.as_str());
            let mut added = false;
            if let Some(offsets) = hit {
                if !part.interfaces.contains_key(port.as_str()) {
                    let ghost key = port@;
                    let iface = build_iface(pat, &offsets);
                    let ghost value = iface@;
                    part.interfaces.insert(port, iface);
                    added = true;
                    proof {
                        assert(part@.interfaces == names::put(seen, key, value));
                        names::place_splits(seen, key);
                        assert forall|q: Seq<char>| names::lookup(part@.interfaces, q) == (if q
                            == key {
                            Some(value)
                        } else {
                            names::lookup(seen, q)
                        }) by {
                            names::put_then_lookup(seen, key, value, q);
                        }
                    }
                }
            }
            proof {
                let key = port_of(pat@.kind, inst@);
                assert forall|k: Seq<char>| names::has(before, k) implies #[trigger] names::lookup(
                    part@.interfaces,
                    k,
                ) == names::lookup(before, k) by {
                    assert(names::lookup(seen, k) == names::lookup(before, k));
                }
                assert forall|k: Seq<char>| #[trigger]
                    names::has(part@.interfaces, k) && !names::has(
                        before,
                        k,
                    ) implies shows(pins, keys, k, names::lookup(part@.interfaces, k)) by {
                    if names::has(seen, k) {
                        assert(shows(pins, keys, k, names::lookup(seen, k)));
                        assert(names::lookup(part@.interfaces, k) == names::lookup(seen, k));
                    } else {
                        assert(names::lookup(part@.interfaces, k) is Some);
                        assert(k == key);
                        assert(matched(keys, patterns()[a as int], inst@));
                    }
                }
                assert forall|i: int, k: int|
                    #![trigger matched(keys, patterns()[i], keys[k].0)]
                    0 <= i && tried(i, k, a as int, b + 1) && 0 <= k < pins.len() && matched(
                        keys,
                        patterns()[i],
                        keys[k].0,
                    ) && !names::has(
                        before,
                        port_of(patterns()[i].kind, keys[k].0),
                    ) implies names::lookup(
                    part@.interfaces,
                    port_of(patterns()[i].kind, keys[k].0),
                ) == Some(found(pins, keys, patterns()[i], keys[k].0)) by {
                    let own = keys[k].0;
                    let p = port_of(patterns()[i].kind, own);
                    if i == a && k == b {
                        if !added {
                            assert(names::has(seen, p));
                            assert(shows(pins, keys, p, names::lookup(seen, p)));
                            let (i2, inst2) = choose|i2: int, inst2: Seq<char>|
                                0 <= i2 < patterns().len() && #[trigger] matched(
                                    keys,
                                    patterns()[i2],
                                    inst2,
                                ) && p == port_of(patterns()[i2].kind, inst2) && names::lookup(
                                    seen,
                                    p,
                                ) == Some(found(pins, keys, patterns()[i2], inst2));
                            ports_are_distinct(i, i2, own, inst2);
                        }
                    } else {
                        assert(tried(i, k, a as int, b as int));
                        assert(names::lookup(seen, p) is Some);
                        if added {
                            assert(!names::has(seen, key));
                            assert(p != key);
                        }
                    }
                }
            }
            b += 1;
        }
        proof {
            assert forall|i: int, k: int|
                #![trigger matched(keys, patterns()[i], keys[k].0)]
                0 <= i < a + 1 && 0 <= k < pins.len() && matched(
                    keys,
                    patterns()[i],
                    keys[k].0,
                ) && !names::has(before, port_of(patterns()[i].kind, keys[k].0))
                    implies names::lookup(
                part@.interfaces,
                port_of(patterns()[i].kind, keys[k].0),
            ) == Some(found(pins, keys, patterns()[i], keys[k].0)) by {
                assert(tried(i, k, a as int, b as int));
            }
        }
        a += 1;
    }
    proof {
        let after = part@.interfaces;
        assert forall|k: Seq<char>| #[trigger]
            names::has(after, k) && !names::has(before, k) implies is_matched_port(keys, k) by {
            assert(shows(pins, keys, k, names::lookup(after, k)));
        }
        assert forall|i: int, inst: Seq<char>|
            0 <= i < patterns().len() && #[trigger] matched(keys, patterns()[i], inst)
                && !names::has(before, port_of(patterns()[i].kind, inst)) implies names::lookup(
            after,
            port_of(patterns()[i].kind, inst),
        ) == Some(found(pins, keys, patterns()[i], inst)) by {
            matched_is_some_pins_instance(keys, i, inst);
            let k = choose|k: int|
                0 <= k < pins.len() && (#[trigger] keys[k]).0 == inst;
            assert(matched(keys, patterns()[i], keys[k].0));
        }
    }
    part.interfaces.len() - start
}

/// Attach the interfaces that the pin names show beyond doubt: an instance of a built-in
/// interface is attached only when each of its signals is named by exactly one pin. A
/// partial or ambiguous set attaches nothing, and no existing port is touched. The result
/// is the number of interfaces attached.
pub fn infer_interfaces(part: &mut PartDef) -> (r: usize)
    ensures
        names::sorted(final(part)@.interfaces),
        inferred(
            old(part)@.pins,
            pin_keys(old(part)@.pins),
            old(part)@.interfaces,
            final(part)@.interfaces,
        ),
        r == final(part)@.interfaces.len() - old(part)@.interfaces.len(),
        final(part)@ == (PartV { interfaces: final(part)@.interfaces, ..old(part)@ }),
{
    let ghost pins = part@.pins;
    let mut split: Vec<(String, String)> = Vec::new();
    let mut i: usize = 0;
    while i < part.pins.len()
        invariant
            i <= part.pins.len(),
            pins == part@.pins,
            pins.len() == part.pins.len(),
            split.len() == i,
            forall|k: int|
                0 <= k < i ==> text::str_pairs(split@)[k] == #[trigger] pin_keys(pins)[k],
        decreases part.pins.len() - i,
    {
        let key = split_instance(part.pins[i].name.as_str());
        assert(pins[i as int].name == part.pins@[i as int].name@);
        let ghost was = split@;
        split.push(key);
        assert forall|k: int| 0 <= k < i + 1 implies text::str_pairs(split@)[k]
            == #[trigger] pin_keys(pins)[k] by {
            if k < i {
                assert(text::str_pairs(was)[k] == pin_keys(pins)[k]);
            }
        }
        i += 1;
    }
    assert(text::str_pairs(split@) =~= pin_keys(pins));
    infer_from_names(part, &split)
}

// ---------------------------------------------------------------------------
// The explicit overlay.
// ---------------------------------------------------------------------------

/// The same string but for the case of ASCII letters.
pub open spec fn same_letters(a: Seq<char>, b: Seq<char>) -> bool {
    lowered(a) == lowered(b)
}

/// The position of the first pattern of that kind, or the length.
pub open spec fn pattern_index(pats: Seq<PatternV>, kind: Seq<char>) -> int
    decreases pats.len(),
{
    if pats.len() == 0 {
        0
    } else if same_letters(pats[0].kind, kind) {
        0
    } else {
        1 + pattern_index(pats.skip(1), kind)
    }
}

/// The position of a signal among a pattern's, or their number.
pub open spec fn signal_index(signals: Seq<(Seq<char>, Dir)>, sig: Seq<char>) -> int
    decreases signals.len(),
{
    if signals.len() == 0 {
        0
    } else if signals[0].0 == sig {
        0
    } else {
        1 + signal_index(signals.skip(1), sig)
    }
}

/// The position of the first binding of a signal, or their number.
pub open spec fn binding_index(bs: Seq<(Seq<char>, Seq<char>)>, sig: Seq<char>) -> int
    decreases bs.len(),
{
    if bs.len() == 0 {
        0
    } else if bs[0].0 == sig {
        0
    } else {
        1 + binding_index(bs.skip(1), sig)
    }
}

/// What is wrong with binding `i`: a signal the pattern lacks, or one bound before.
pub open spec fn binding_fault(
    pat: PatternV,
    bs: Seq<(Seq<char>, Seq<char>)>,
    i: int,
) -> Option<Seq<char>> {
    let sig = bs[i].0;
    if signal_index(pat.signals, sig) == pat.signals.len() {
        Some(
            "apply_interface: interface "@ + pat.kind + " has no signal `"@ + sig + "`"@,
        )
    } else if binding_index(bs.take(i), sig) < i {
        Some("apply_interface: signal `"@ + sig + "` bound more than once"@)
    } else {
        None
    }
}

/// The first fault among the bindings from `i` on.
pub open spec fn first_fault(
    pat: PatternV,
    bs: Seq<(Seq<char>, Seq<char>)>,
    i: int,
) -> Option<Seq<char>>
    decreases bs.len() - i,
{
    if i < 0 || i >= bs.len() {
        None
    } else if binding_fault(pat, bs, i) is Some {
        binding_fault(pat, bs, i)
    } else {
        first_fault(pat, bs, i + 1)
    }
}

/// The complaint about the first signal from `i` on that no binding names.
pub open spec fn first_unbound(
    pat: PatternV,
    bs: Seq<(Seq<char>, Seq<char>)>,
    i: int,
) -> Option<Seq<char>>
    decreases pat.signals.len() - i,
{
    if i < 0 || i >= pat.signals.len() {
        None
    } else if binding_index(bs, pat.signals[i].0) == bs.len() {
        Some(
            "apply_interface: interface "@ + pat.kind + " signal `"@ + pat.signals[i].0
                + "` is unbound (the set must be complete)"@,
        )
    } else {
        first_unbound(pat, bs, i + 1)
    }
}

/// Where the pin selected for signal `i` is, or the complaint about the selection.
pub open spec fn selected_offset(
    p: PartV,
    pat: PatternV,
    bs: Seq<(Seq<char>, Seq<char>)>,
    i: int,
) -> Result<Point, Seq<char>> {
    let sig = pat.signals[i].0;
    let sel = bs[binding_index(bs, sig)].1;
    let ids = part::selected(p, sel);
    if ids.len() != 1 {
        Err(
            "apply_interface: selector `"@ + sel + "` for signal `"@ + sig + "` resolves to "@
                + text::nat_text(ids.len()) + " pads (need exactly 1)"@,
        )
    } else {
        match part::offset_of(p, ids[0]) {
            Some(at) => Ok(at),
            None => Err("apply_interface: pad `"@ + ids[0] + "` has no offset"@),
        }
    }
}

/// The offsets of the first `k` signals, or the first complaint.
pub open spec fn selected_offsets(
    p: PartV,
    pat: PatternV,
    bs: Seq<(Seq<char>, Seq<char>)>,
    k: nat,
) -> Result<Seq<Point>, Seq<char>>
    decreases k,
{
    if k == 0 {
        Ok(Seq::empty())
    } else {
        match selected_offsets(p, pat, bs, (k - 1) as nat) {
            Err(e) => Err(e),
            Ok(done) => match selected_offset(p, pat, bs, k - 1) {
                Err(e) => Err(e),
                Ok(at) => Ok(done.push(at)),
            },
        }
    }
}

/// The interface that the overlay attaches, or why it refuses.
pub open spec fn overlaid(
    p: PartV,
    kind: Seq<char>,
    port: Seq<char>,
    bs: Seq<(Seq<char>, Seq<char>)>,
) -> Result<IfaceV, Seq<char>> {
    let n = pattern_index(patterns(), kind);
    let pat = patterns()[n];
    if n == patterns().len() {
        Err("apply_interface: unknown interface type "@ + text::debug_text(kind))
    } else if names::has(p.interfaces, port) {
        Err(
            "apply_interface: part `"@ + p.name + "` already has an interface port `"@ + port
                + "`"@,
        )
    } else if first_fault(pat, bs, 0) is Some {
        Err(first_fault(pat, bs, 0)->0)
    } else if first_unbound(pat, bs, 0) is Some {
        Err(first_unbound(pat, bs, 0)->0)
    } else {
        match selected_offsets(p, pat, bs, pat.signals.len()) {
            Err(e) => Err(e),
            Ok(offsets) => Ok(assembled(pat, offsets)),
        }
    }
}

/// A signal name and the selector of the pin that provides it.
pub type SignalBinding<'a> = (&'a str, &'a str);

/// Bindings as values.
pub open spec fn binding_views(bs: Seq<(&str, &str)>) -> Seq<(Seq<char>, Seq<char>)> {
    Seq::new(bs.len(), |i: int| (bs[i].0@, bs[i].1@))
}

/// A string is the same as another but for the case of ASCII letters.
fn eq_ignoring_case(a: &str, b: &str) -> (r: bool)
    ensures
        r == same_letters(a@, b@),
{
    let x = lower(a);
    let y = lower(b);
    str_eq(x.as_str(), y.as_str())
}

fn find_pattern(reg: &Vec<IfacePattern>, kind: &str) -> (r: usize)
    ensures
        r == pattern_index(pattern_views(reg@), kind@),
        r <= reg.len(),
{
    let ghost v = pattern_views(reg@);
    let mut i: usize = 0;
    assert(v.skip(0) =~= v);
    while i < reg.len()
        invariant
            i <= reg.len(),
            v == pattern_views(reg@),
            pattern_index(v, kind@) == i + pattern_index(v.skip(i as int), kind@),
        decreases reg.len() - i,
    {
        proof {
            assert(v.skip(i as int)[0] == v[i as int]);
            assert(v.skip(i as int).skip(1) =~= v.skip(i + 1));
        }
        if eq_ignoring_case(reg[i].kind.as_str(), kind) {
            return i;
        }
        i += 1;
    }
    i
}

fn find_signal(signals: &Vec<(String, Dir)>, sig: &str) -> (r: usize)
    ensures
        r == signal_index(signal_views(signals@), sig@),
        r <= signals.len(),
{
    let ghost v = signal_views(signals@);
    let mut i: usize = 0;
    assert(v.skip(0) =~= v);
    while i < signals.len()
        invariant
            i <= signals.len(),
            v == signal_views(signals@),
            signal_index(v, sig@) == i + signal_index(v.skip(i as int), sig@),
        decreases signals.len() - i,
    {
        proof {
            assert(v.skip(i as int)[0] == v[i as int]);
            assert(v.skip(i as int).skip(1) =~= v.skip(i + 1));
        }
        if str_eq(signals[i].0.as_str(), sig) {
            return i;
        }
        i += 1;
    }
    i
}

/// The first of the first `n` bindings that names the signal, or `n`.
fn find_binding(bs: &[SignalBinding], n: usize, sig: &str) -> (r: usize)
    requires
        n <= bs.len(),
    ensures
        r == binding_index(binding_views(bs@).take(n as int), sig@),
        r <= n,
{
    let ghost v = binding_views(bs@).take(n as int);
    let mut i: usize = 0;
    assert(v.skip(0) =~= v);
    while i < n
        invariant
            i <= n <= bs.len(),
            v == binding_views(bs@).take(n as int),
            binding_index(v, sig@) == i + binding_index(v.skip(i as int), sig@),
        decreases n - i,
    {
        proof {
            assert(v.skip(i as int)[0] == v[i as int]);
            assert(v.skip(i as int).skip(1) =~= v.skip(i + 1));
        }
        if str_eq(bs[i].0, sig) {
            return i;
        }
        i += 1;
    }
    i
}

fn check_bindings(pat: &IfacePattern, bs: &[SignalBinding]) -> (r: Result<(), String>)
    ensures
        match r {
            Ok(_) => first_fault(pat@, binding_views(bs@), 0) is None && first_unbound(
                pat@,
                binding_views(bs@),
                0,
            ) is None,
            Err(e) => match first_fault(pat@, binding_views(bs@), 0) {
                Some(m) => e@ == m,
                None => first_unbound(pat@, binding_views(bs@), 0) == Some(e@),
            },
        },
{
    let ghost v = binding_views(bs@);
    let mut i: usize = 0;
    while i < bs.len()
        invariant
            i <= bs.len(),
            v == binding_views(bs@),
            first_fault(pat@, v, 0) == first_fault(pat@, v, i as int),
        decreases bs.len() - i,
    {
        let sig = bs[i].0;
        assert(v[i as int].0 == sig@);
        if find_signal(&pat.signals, sig) == pat.signals.len() {
            let head = cat3("apply_interface: interface ", pat.kind.as_str(), " has no signal `");
            return Err(cat3(head.as_str(), sig, "`"));
        }
        if find_binding(bs, i, sig) < i {
            return Err(cat3("apply_interface: signal `", sig, "` bound more than once"));
        }
        i += 1;
    }
    let mut j: usize = 0;
    assert(v.take(bs.len() as int) =~= v);
    while j < pat.signals.len()
        invariant
            j <= pat.signals.len(),
            v == binding_views(bs@),
            v.take(bs.len() as int) == v,
            first_fault(pat@, v, 0) is None,
            first_unbound(pat@, v, 0) == first_unbound(pat@, v, j as int),
        decreases pat.signals.len() - j,
    {
        let sig = &pat.signals[j].0;
        assert(pat@.signals[j as int].0 == sig@);
        if find_binding(bs, bs.len(), sig.as_str()) == bs.len() {
            let head = cat3("apply_interface: interface ", pat.kind.as_str(), " signal `");
            return Err(
                cat3(head.as_str(), sig.as_str(), "` is unbound (the set must be complete)"),
            );
        }
        j += 1;
    }
    Ok(())
}

/// Every signal from `i` on has a binding when none is unbound.
proof fn all_bound(pat: PatternV, bs: Seq<(Seq<char>, Seq<char>)>, i: int, j: int)
    requires
        0 <= i <= j < pat.signals.len(),
        first_unbound(pat, bs, i) is None,
    ensures
        binding_index(bs, pat.signals[j].0) != bs.len(),
    decreases j - i,
{
    if i < j {
        all_bound(pat, bs, i + 1, j);
    }
}

fn select_offsets(p: &PartDef, pat: &IfacePattern, bs: &[SignalBinding]) -> (r: Result<
    Vec<Point>,
    String,
>)
    requires
        first_unbound(pat@, binding_views(bs@), 0) is None,
    ensures
        match (r, selected_offsets(p@, pat@, binding_views(bs@), pat@.signals.len())) {
            (Ok(o), Ok(w)) => o@ == w && w.len() == pat@.signals.len(),
            (Err(e), Err(m)) => e@ == m,
            _ => false,
        },
{
    let ghost v = binding_views(bs@);
    let mut out: Vec<Point> = Vec::new();
    let mut i: usize = 0;
    assert(v.take(bs.len() as int) =~= v);
    while i < pat.signals.len()
        invariant
            i <= pat.signals.len(),
            v == binding_views(bs@),
            v.take(bs.len() as int) == v,
            first_unbound(pat@, v, 0) is None,
            out.len() == i,
            selected_offsets(p@, pat@, v, i as nat) == Ok::<Seq<Point>, Seq<char>>(out@),
        decreases pat.signals.len() - i,
    {
        let sig = &pat.signals[i].0;
        assert(pat@.signals[i as int].0 == sig@);
        proof {
            all_bound(pat@, v, 0, i as int);
        }
        let at = find_binding(bs, bs.len(), sig.as_str());
        let sel = bs[at].1;
        assert(v[at as int].1 == sel@);
        let ids = p.resolve_selector(sel);
        assert(text::strs(ids@).len() == ids.len());
        if ids.len() != 1 {
            let head = cat3("apply_interface: selector `", sel, "` for signal `");
            let more = cat3(head.as_str(), sig.as_str(), "` resolves to ");
            let count = text::string_of(&text::nat_chars(ids.len() as u128));
            let e = cat3(more.as_str(), count.as_str(), " pads (need exactly 1)");
            proof {
                refused_later(p@, pat@, v, i as nat, pat@.signals.len(), e@);
            }
            return Err(e);
        }
        assert(text::strs(ids@)[0] == ids@[0]@);
        match p.pin_offset(ids[0].as_str()) {
            Some(place) => {
                out.push(place);
            },
            None => {
                let e = cat3("apply_interface: pad `", ids[0].as_str(), "` has no offset");
                proof {
                    refused_later(p@, pat@, v, i as nat, pat@.signals.len(), e@);
                }
                return Err(e);
            },
        }
        i += 1;
    }
    Ok(out)
}

/// A complaint about signal `i` is the complaint about the whole list.
proof fn refused_later(
    p: PartV,
    pat: PatternV,
    bs: Seq<(Seq<char>, Seq<char>)>,
    i: nat,
    k: nat,
    e: Seq<char>,
)
    requires
        i < k,
        selected_offsets(p, pat, bs, i) is Ok,
        selected_offset(p, pat, bs, i as int) == Err::<Point, Seq<char>>(e),
    ensures
        selected_offsets(p, pat, bs, k) == Err::<Seq<Point>, Seq<char>>(e),
    decreases k,
{
    if i + 1 < k {
        refused_later(p, pat, bs, i, (k - 1) as nat, e);
    }
}

/// Attach an interface by name: `kind` picks the built-in interface, in any case; `port`
/// is the port name; `bindings` give each signal its pin. The directions and the mating
/// come from the built-in interface. Refused, with the part unchanged, for an unknown
/// kind, a taken port, an unknown, repeated or missing signal, and a selector that does
/// not name exactly one pad.
pub fn apply_interface(
    part: &mut PartDef,
    kind: &str,
    port: &str,
    bindings: &[SignalBinding],
) -> (r: Result<(), String>)
    ensures
        match overlaid(old(part)@, kind@, port@, binding_views(bindings@)) {
            Ok(iface) => r is Ok && final(part)@ == (PartV {
                interfaces: names::put(old(part)@.interfaces, port@, iface),
                ..old(part)@
            }),
            Err(e) => r is Err && r->Err_0@ == e && final(part)@ == old(part)@,
        },
{
    let reg = registry();
    let n = find_pattern(&reg, kind);
    if n == reg.len() {
        let shown = debug_string(kind);
        return Err(cat("apply_interface: unknown interface type ", shown.as_str()));
    }
    let pat = &reg[n];
    assert(patterns()[n as int] == pat@);
    if part.interfaces.contains_key(port) {
        let head = cat3(
            "apply_interface: part `",
            part.name.as_str(),
            "` already has an interface port `",
        );
        return Err(cat3(head.as_str(), port, "`"));
    }
    match check_bindings(pat, bindings) {
        Ok(_) => {},
        Err(e) => {
            return Err(e);
        },
    }
    match select_offsets(part, pat, bindings) {
        Ok(offsets) => {
            let iface = build_iface(pat, &offsets);
            part.interfaces.insert(port.to_owned(), iface);
            Ok(())
        },
        Err(e) => Err(e),
    }
}

// ---------------------------------------------------------------------------
// Laws.
// ---------------------------------------------------------------------------

/// No signal is declared twice.
pub open spec fn signals_distinct(signals: Seq<(Seq<char>, Dir)>) -> bool {
    forall|i: int, j: int|
        0 <= i < j < signals.len() ==> (#[trigger] signals[i]).0 != (#[trigger] signals[j]).0
}

/// No built-in interface has a signal twice.
pub proof fn registry_signals_are_distinct(i: int)
    requires
        0 <= i < patterns().len(),
    ensures
        signals_distinct(patterns()[i].signals),
{
    reveal_strlit("tx");
    reveal_strlit("rx");
    reveal_strlit("sck");
    reveal_strlit("mosi");
    reveal_strlit("miso");
    reveal_strlit("cs");
    reveal_strlit("sda");
    reveal_strlit("scl");
    reveal_strlit("swdio");
    reveal_strlit("swclk");
    let v = patterns()[i].signals;
    assert("mosi"@[0] == 'm' && "miso"@[0] == 'm' && "mosi"@[1] == 'o' && "miso"@[1] == 'i');
    assert("sda"@[1] == 'd' && "scl"@[1] == 'c');
    assert("swdio"@[2] == 'd' && "swclk"@[2] == 'c');
    assert("sck"@[0] == 's' && "cs"@[0] == 'c' && "tx"@[0] == 't' && "rx"@[0] == 'r');
    assert("sck"@.len() == 3 && "mosi"@.len() == 4 && "cs"@.len() == 2);
}

/// The maps of an interface hold every signal with its direction and its place.
pub proof fn maps_hold_every_signal(
    signals: Seq<(Seq<char>, Dir)>,
    offsets: Seq<Point>,
    k: nat,
    j: int,
)
    requires
        signals_distinct(signals),
        k <= signals.len(),
        0 <= j < k,
    ensures
        names::sorted(signal_map(signals, k)),
        names::sorted(offset_map(signals, offsets, k)),
        names::lookup(signal_map(signals, k), signals[j].0) == Some(signals[j].1),
        names::lookup(offset_map(signals, offsets, k), signals[j].0) == Some(offsets[j]),
    decreases k,
{
    let n = (k - 1) as nat;
    maps_stay_sorted(signals, offsets, n);
    names::put_keeps_sorted(signal_map(signals, n), signals[k - 1].0, signals[k - 1].1);
    names::put_keeps_sorted(offset_map(signals, offsets, n), signals[k - 1].0, offsets[k - 1]);
    names::put_then_lookup(
        signal_map(signals, n),
        signals[k - 1].0,
        signals[k - 1].1,
        signals[j].0,
    );
    names::put_then_lookup(
        offset_map(signals, offsets, n),
        signals[k - 1].0,
        offsets[k - 1],
        signals[j].0,
    );
    if j < k - 1 {
        maps_hold_every_signal(signals, offsets, n, j);
    }
}

proof fn maps_stay_sorted(signals: Seq<(Seq<char>, Dir)>, offsets: Seq<Point>, k: nat)
    ensures
        names::sorted(signal_map(signals, k)),
        names::sorted(offset_map(signals, offsets, k)),
    decreases k,
{
    if k > 0 {
        let n = (k - 1) as nat;
        maps_stay_sorted(signals, offsets, n);
        names::put_keeps_sorted(signal_map(signals, n), signals[k - 1].0, signals[k - 1].1);
        names::put_keeps_sorted(offset_map(signals, offsets, n), signals[k - 1].0, offsets[k - 1]);
    }
}

/// A port of a registry interface resolves like any other: each signal has the role of
/// its direction, and lies where the pin that provides it lies.
pub proof fn port_signals_resolve(
    p: PartV,
    n: int,
    port: Seq<char>,
    offsets: Seq<Point>,
    j: int,
)
    requires
        0 <= n < patterns().len(),
        offsets.len() == patterns()[n].signals.len(),
        0 <= j < offsets.len(),
        !port.contains('.'),
        names::lookup(p.interfaces, port) == Some(assembled(patterns()[n], offsets)),
    ensures
        ({
            let (sig, dir) = patterns()[n].signals[j];
            let id = port + seq!['.'] + sig;
            &&& part::role_of(p, id) == Some(part::dir_role(dir))
            &&& part::offset_of(p, id) == Some(offsets[j])
            &&& part::selected(p, id) == seq![id]
        }),
{
    let pat = patterns()[n];
    let (sig, dir) = pat.signals[j];
    let id = port + seq!['.'] + sig;
    registry_signals_are_distinct(n);
    maps_hold_every_signal(pat.signals, offsets, pat.signals.len(), j);
    text::find_char_is_first(id, '.');
    let i = text::find_char(id, '.');
    assert(id[port.len() as int] == '.');
    if i < port.len() {
        assert(id[i] == port[i]);
        assert(port.contains('.'));
    }
    assert(i == port.len());
    assert(id.take(i) =~= port);
    assert(id.skip(i + 1) =~= sig);
}

proof fn port_has_no_dot(i: int, inst: Seq<char>)
    requires
        0 <= i < patterns().len(),
        forall|k: int| 0 <= k < inst.len() ==> is_digit(#[trigger] inst[k]),
    ensures
        !port_of(patterns()[i].kind, inst).contains('.'),
{
    reveal_strlit("UART");
    reveal_strlit("SPI");
    reveal_strlit("I2C");
    reveal_strlit("SWD");
    let kind = patterns()[i].kind;
    let port = port_of(kind, inst);
    assert forall|k: int| 0 <= k < port.len() implies port[k] != '.' by {
        if k < kind.len() {
            assert(port[k] == text::ascii_lower(kind[k]));
        } else {
            assert(port[k] == inst[k - kind.len()]);
        }
    }
}

/// Every complete and unambiguous set of pins becomes a usable port: after inference each
/// signal of it resolves to its direction's role and to the place of its pin, unless the
/// port's name was taken before.
pub proof fn inferred_ports_resolve(
    before: PartV,
    after: PartV,
    n: int,
    inst: Seq<char>,
    j: int,
)
    requires
        inferred(before.pins, pin_keys(before.pins), before.interfaces, after.interfaces),
        0 <= n < patterns().len(),
        matched(pin_keys(before.pins), patterns()[n], inst),
        !names::has(before.interfaces, port_of(patterns()[n].kind, inst)),
        0 <= j < patterns()[n].signals.len(),
    ensures
        ({
            let (sig, dir) = patterns()[n].signals[j];
            let id = port_of(patterns()[n].kind, inst) + seq!['.'] + sig;
            let keys = pin_keys(before.pins);
            let pin = claimants(keys, keys.len(), patterns()[n], inst, sig)[0];
            &&& part::role_of(after, id) == Some(part::dir_role(dir))
            &&& part::offset_of(after, id) == Some(before.pins[pin].offset)
        }),
{
    let pat = patterns()[n];
    let keys = pin_keys(before.pins);
    matched_is_some_pins_instance(keys, n, inst);
    let k = choose|k: int| 0 <= k < keys.len() && (#[trigger] keys[k]).0 == inst;
    assert forall|c: int| 0 <= c < inst.len() implies is_digit(#[trigger] inst[c]) by {
        instance_is_digits(before.pins[k].name, c);
    }
    port_has_no_dot(n, inst);
    port_signals_resolve(
        after,
        n,
        port_of(pat.kind, inst),
        matched_offsets(before.pins, keys, pat, inst),
        j,
    );
}

/// Inference takes nothing away: every interface there was is still there, unchanged.
pub proof fn inference_keeps_interfaces(before: PartV, after: PartV, port: Seq<char>)
    requires
        inferred(before.pins, pin_keys(before.pins), before.interfaces, after.interfaces),
        names::has(before.interfaces, port),
    ensures
        names::lookup(after.interfaces, port) == names::lookup(before.interfaces, port),
{
}

} // verus!
