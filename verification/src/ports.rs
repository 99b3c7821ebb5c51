//! From pin names to ports: what a name says, and when a set of names makes a port.

use crate::coord::Point;
use crate::iface_infer;
use crate::iface_infer::{KeysV, PatternV};
use crate::names;
use crate::part;
use crate::part::{Dir, PartV, PinV};
use vstd::prelude::*;

verus! {

// ---------------------------------------------------------------------------
// Names.
// ---------------------------------------------------------------------------

/// The text is letters, and not empty.
pub open spec fn is_word(s: Seq<char>) -> bool {
    s.len() > 0 && forall|i: int| 0 <= i < s.len() ==> iface_infer::is_letter(#[trigger] s[i])
}

/// The text is digits, and not empty.
pub open spec fn is_number(s: Seq<char>) -> bool {
    s.len() > 0 && forall|i: int| 0 <= i < s.len() ==> iface_infer::is_digit(#[trigger] s[i])
}

proof fn letters_end_at(s: Seq<char>, i: int, n: int)
    requires
        0 <= i <= n <= s.len(),
        forall|j: int| i <= j < n ==> iface_infer::is_letter(#[trigger] s[j]),
        n < s.len() ==> !iface_infer::is_letter(s[n]),
    ensures
        iface_infer::letters_end(s, i) == n,
    decreases n - i,
{
    if i < n {
        letters_end_at(s, i + 1, n);
    }
}

proof fn digits_end_at(s: Seq<char>, i: int, n: int)
    requires
        0 <= i <= n <= s.len(),
        forall|j: int| i <= j < n ==> iface_infer::is_digit(#[trigger] s[j]),
        n < s.len() ==> !iface_infer::is_digit(s[n]),
    ensures
        iface_infer::digits_end(s, i) == n,
    decreases n - i,
{
    if i < n {
        digits_end_at(s, i + 1, n);
    }
}

/// Digits between leading letters and an underscore are the instance, and the name without
/// them is the rest.
pub proof fn digits_behind_the_word_are_the_instance(
    word: Seq<char>,
    number: Seq<char>,
    tail: Seq<char>,
)
    requires
        is_word(word),
        is_number(number),
        tail.len() > 0,
        tail[0] == '_',
    ensures
        iface_infer::index_and_rest(word + number + tail) == (number, word + tail),
{
    let name = word + number + tail;
    let d = word.len() as int;
    let e = d + number.len();
    assert forall|j: int| 0 <= j < d implies iface_infer::is_letter(#[trigger] name[j]) by {
        assert(name[j] == word[j]);
    }
    assert forall|j: int| d <= j < e implies iface_infer::is_digit(#[trigger] name[j]) by {
        assert(name[j] == number[j - d]);
    }
    assert(name[d] == number[0]);
    assert(name[e] == tail[0]);
    letters_end_at(name, 0, d);
    digits_end_at(name, d, e);
    assert(name.subrange(d, e) =~= number);
    assert(name.take(d) =~= word);
    assert(name.skip(e) =~= tail);
}

/// A name that starts with no letter, or whose leading letters are not followed by a digit,
/// or whose digits there are not followed by an underscore, has no instance and stays whole.
pub proof fn other_names_stay_whole(word: Seq<char>, number: Seq<char>, tail: Seq<char>)
    requires
        word.len() == 0 || is_word(word),
        number.len() == 0 || is_number(number),
        tail.len() > 0 ==> !iface_infer::is_digit(tail[0]),
        number.len() == 0 && tail.len() > 0 ==> !iface_infer::is_letter(tail[0]),
        word.len() == 0 || number.len() == 0 || tail.len() == 0 || tail[0] != '_',
    ensures
        iface_infer::index_and_rest(word + number + tail) == (
            Seq::<char>::empty(),
            word + number + tail,
        ),
{
    let name = word + number + tail;
    let d = word.len() as int;
    let e = d + number.len();
    assert forall|j: int| 0 <= j < d implies iface_infer::is_letter(#[trigger] name[j]) by {
        assert(name[j] == word[j]);
    }
    assert forall|j: int| d <= j < e implies iface_infer::is_digit(#[trigger] name[j]) by {
        assert(name[j] == number[j - d]);
    }
    if number.len() > 0 {
        assert(name[d] == number[0]);
    }
    if tail.len() > 0 {
        assert(name[e] == tail[0]);
    }
    letters_end_at(name, 0, d);
    digits_end_at(name, d, e);
}

// ---------------------------------------------------------------------------
// The built-in interfaces.
// ---------------------------------------------------------------------------

/// The pattern mates the signal `a` of one side with `b` of the other.
pub open spec fn mates(pat: PatternV, a: Seq<char>, b: Seq<char>) -> bool {
    pat.mate.contains((a, b))
}

/// Two sides of a link fit: both may drive, or one drives what the other reads.
pub open spec fn fits(a: Dir, b: Dir) -> bool {
    match a {
        Dir::Bidir => b == Dir::Bidir,
        Dir::Out => b == Dir::In,
        Dir::In => b == Dir::Out,
    }
}

/// The signal that mates with the `j`-th.
spec fn partner(n: int, j: int) -> int {
    if n == 0 {
        1 - j
    } else {
        j
    }
}

/// Every signal of a built-in interface has a partner on the other side that it fits, the
/// same one both ways; only UART crosses, and its sender drives.
pub proof fn signals_mate_with_what_fits(n: int, j: int) -> (k: int)
    requires
        0 <= n < iface_infer::patterns().len(),
        0 <= j < iface_infer::patterns()[n].signals.len(),
    ensures
        ({
            let pat = iface_infer::patterns()[n];
            &&& 0 <= k < pat.signals.len()
            &&& mates(pat, pat.signals[j].0, pat.signals[k].0)
            &&& mates(pat, pat.signals[k].0, pat.signals[j].0)
            &&& fits(pat.signals[j].1, pat.signals[k].1)
            &&& j == k <==> pat.kind != "UART"@
            &&& pat.signals[j].1 == Dir::Out <==> pat.signals[j].0 == "tx"@
        }),
{
    reveal_strlit("UART");
    reveal_strlit("SPI");
    reveal_strlit("I2C");
    reveal_strlit("SWD");
    reveal_strlit("tx");
    reveal_strlit("rx");
    reveal_strlit("sck");
    reveal_strlit("mosi");
    reveal_strlit("miso");
    reveal_strlit("cs");
    reveal_strlit("sda");
    reveal_strlit("scl");
    reveal_strlit("swdio");
    reveal_strlit("swclk");
    let pat = iface_infer::patterns()[n];
    let k = partner(n, j);
    assert("UART"@.len() == 4 && "SPI"@.len() == 3 && "I2C"@.len() == 3 && "SWD"@.len() == 3);
    assert("tx"@[0] == 't' && "rx"@[0] == 'r' && "cs"@[0] == 'c');
    assert("tx"@.len() == 2 && "sck"@.len() == 3 && "mosi"@.len() == 4 && "miso"@.len() == 4
        && "sda"@.len() == 3 && "scl"@.len() == 3 && "swdio"@.len() == 5 && "swclk"@.len() == 5);
    assert(pat.mate[j] == (pat.signals[j].0, pat.signals[k].0));
    assert(pat.mate[k] == (pat.signals[k].0, pat.signals[j].0));
    k
}

/// No pin name stands for two signals of one interface.
pub open spec fn names_differ(aliases: Seq<(Seq<char>, Seq<char>)>) -> bool {
    forall|i: int, j: int|
        0 <= i < j < aliases.len() ==> (#[trigger] aliases[i]).0 != (#[trigger] aliases[j]).0
}

proof fn spi_names_differ()
    ensures
        names_differ(iface_infer::spi_pattern().aliases),
{
    reveal_strlit("SCK");
    reveal_strlit("SCLK");
    reveal_strlit("SPI_SCK");
    reveal_strlit("SPI_CLK");
    reveal_strlit("MOSI");
    reveal_strlit("SDO");
    reveal_strlit("SPI_MOSI");
    reveal_strlit("MISO");
    reveal_strlit("SDI");
    reveal_strlit("SPI_MISO");
    reveal_strlit("CS");
    reveal_strlit("NSS");
    reveal_strlit("SS");
    reveal_strlit("SPI_CS");
    assert("SCK"@.len() == 3 && "SDO"@.len() == 3 && "SDI"@.len() == 3 && "NSS"@.len() == 3);
    assert("SCLK"@.len() == 4 && "MOSI"@.len() == 4 && "MISO"@.len() == 4);
    assert("SPI_SCK"@.len() == 7 && "SPI_CLK"@.len() == 7);
    assert("SPI_MOSI"@.len() == 8 && "SPI_MISO"@.len() == 8);
    assert("CS"@.len() == 2 && "SS"@.len() == 2 && "SPI_CS"@.len() == 6);
    assert("SCK"@[2] == 'K' && "SDO"@[2] == 'O' && "SDI"@[2] == 'I' && "NSS"@[2] == 'S');
    assert("SCLK"@[1] == 'C' && "MOSI"@[1] == 'O' && "MISO"@[1] == 'I');
    assert("SPI_SCK"@[4] == 'S' && "SPI_CLK"@[4] == 'C');
    assert("SPI_MOSI"@[5] == 'O' && "SPI_MISO"@[5] == 'I');
    assert("CS"@[0] == 'C' && "SS"@[0] == 'S');
}

proof fn other_names_differ()
    ensures
        names_differ(iface_infer::uart_pattern().aliases),
        names_differ(iface_infer::i2c_pattern().aliases),
        names_differ(iface_infer::swd_pattern().aliases),
{
    reveal_strlit("TX");
    reveal_strlit("TXD");
    reveal_strlit("UART_TX");
    reveal_strlit("UART_TXD");
    reveal_strlit("RX");
    reveal_strlit("RXD");
    reveal_strlit("UART_RX");
    reveal_strlit("UART_RXD");
    reveal_strlit("SDA");
    reveal_strlit("I2C_SDA");
    reveal_strlit("SCL");
    reveal_strlit("I2C_SCL");
    reveal_strlit("SWDIO");
    reveal_strlit("SWD_IO");
    reveal_strlit("SWCLK");
    reveal_strlit("SWDCLK");
    reveal_strlit("SWD_CLK");
    assert("TX"@.len() == 2 && "RX"@.len() == 2 && "TXD"@.len() == 3 && "RXD"@.len() == 3);
    assert("UART_TX"@.len() == 7 && "UART_RX"@.len() == 7 && "UART_TXD"@.len() == 8
        && "UART_RXD"@.len() == 8);
    assert("TX"@[0] == 'T' && "RX"@[0] == 'R' && "TXD"@[0] == 'T' && "RXD"@[0] == 'R');
    assert("UART_TX"@[5] == 'T' && "UART_RX"@[5] == 'R' && "UART_TXD"@[5] == 'T'
        && "UART_RXD"@[5] == 'R');
    assert("SDA"@[1] == 'D' && "SCL"@[1] == 'C' && "I2C_SDA"@[5] == 'D' && "I2C_SCL"@[5] == 'C');
    assert("SWDIO"@[2] == 'D' && "SWCLK"@[2] == 'C');
    assert("SWD_IO"@[3] == '_' && "SWDCLK"@[3] == 'C');
    assert("SWDIO"@.len() == 5 && "SWCLK"@.len() == 5 && "SWD_IO"@.len() == 6 && "SWDCLK"@.len()
        == 6 && "SWD_CLK"@.len() == 7);
}

/// No pin name stands for two signals of a built-in interface.
pub proof fn a_name_stands_for_one_signal(n: int)
    requires
        0 <= n < iface_infer::patterns().len(),
    ensures
        names_differ(iface_infer::patterns()[n].aliases),
{
    spi_names_differ();
    other_names_differ();
}

/// Where among the aliases the `j`-th signal's own name is.
spec fn own_alias(n: int, j: int) -> int {
    if n == 0 {
        4 * j
    } else if n == 1 {
        if j == 0 {
            0
        } else if j == 1 {
            4
        } else if j == 2 {
            7
        } else {
            10
        }
    } else {
        2 * j
    }
}

/// A signal's own name in capitals stands for it.
pub proof fn a_signal_has_its_own_name(n: int, j: int) -> (i: int)
    requires
        0 <= n < iface_infer::patterns().len(),
        0 <= j < iface_infer::patterns()[n].signals.len(),
    ensures
        ({
            let pat = iface_infer::patterns()[n];
            &&& 0 <= i < pat.aliases.len()
            &&& pat.aliases[i].1 == pat.signals[j].0
            &&& iface_infer::lowered(pat.aliases[i].0) == pat.signals[j].0
        }),
{
    reveal_strlit("tx");
    reveal_strlit("rx");
    reveal_strlit("sck");
    reveal_strlit("mosi");
    reveal_strlit("miso");
    reveal_strlit("cs");
    reveal_strlit("sda");
    reveal_strlit("scl");
    reveal_strlit("swdio");
    reveal_strlit("swclk");
    reveal_strlit("TX");
    reveal_strlit("RX");
    reveal_strlit("SCK");
    reveal_strlit("MOSI");
    reveal_strlit("MISO");
    reveal_strlit("CS");
    reveal_strlit("SDA");
    reveal_strlit("SCL");
    reveal_strlit("SWDIO");
    reveal_strlit("SWCLK");
    let pat = iface_infer::patterns()[n];
    let i = own_alias(n, j);
    assert(iface_infer::lowered(pat.aliases[i].0) =~= pat.signals[j].0);
    i
}

proof fn listed_is_found(
    aliases: Seq<(Seq<char>, Seq<char>)>,
    core: Seq<char>,
    sig: Seq<char>,
)
    requires
        names_differ(aliases),
    ensures
        iface_infer::alias_of(aliases, core) == Some(sig) <==> aliases.contains((core, sig)),
    decreases aliases.len(),
{
    if aliases.len() > 0 {
        let rest = aliases.skip(1);
        assert forall|i: int, j: int| 0 <= i < j < rest.len() implies (#[trigger] rest[i]).0 != (
        #[trigger] rest[j]).0 by {
            assert(rest[i] == aliases[i + 1]);
            assert(rest[j] == aliases[j + 1]);
        }
        listed_is_found(rest, core, sig);
        if rest.contains((core, sig)) {
            let i = choose|i: int| 0 <= i < rest.len() && rest[i] == (core, sig);
            assert(aliases[i + 1] == (core, sig));
        }
        if aliases.contains((core, sig)) {
            let i = choose|i: int| 0 <= i < aliases.len() && aliases[i] == (core, sig);
            if i > 0 {
                assert(rest[i - 1] == (core, sig));
            } else {
                assert(aliases[0] == (core, sig));
            }
        }
        if aliases[0].0 == core {
            assert(aliases.contains((core, aliases[0].1)));
        }
    }
}

// ---------------------------------------------------------------------------
// Ports.
// ---------------------------------------------------------------------------

/// The pin's name stands for that signal of that instance.
pub open spec fn stands_for(pin: PinV, n: int, inst: Seq<char>, sig: Seq<char>) -> bool {
    let (own, rest) = iface_infer::instance_of(pin.name);
    own == inst && iface_infer::patterns()[n].aliases.contains((rest, sig))
}

proof fn standing_is_claiming(pins: Seq<PinV>, i: int, n: int, inst: Seq<char>, sig: Seq<char>)
    requires
        0 <= i < pins.len(),
        0 <= n < iface_infer::patterns().len(),
    ensures
        stands_for(pins[i], n, inst, sig) <==> iface_infer::claims(
            iface_infer::pin_keys(pins)[i],
            iface_infer::patterns()[n],
            inst,
            sig,
        ),
{
    a_name_stands_for_one_signal(n);
    listed_is_found(
        iface_infer::patterns()[n].aliases,
        iface_infer::instance_of(pins[i].name).1,
        sig,
    );
}

proof fn only_claimant(
    keys: KeysV,
    k: nat,
    pat: PatternV,
    inst: Seq<char>,
    sig: Seq<char>,
    at: int,
)
    requires
        k <= keys.len(),
        forall|i: int|
            0 <= i < keys.len() ==> (iface_infer::claims(#[trigger] keys[i], pat, inst, sig) <==> i
                == at),
    ensures
        iface_infer::claimants(keys, k, pat, inst, sig) == (if 0 <= at < k {
            seq![at]
        } else {
            Seq::<int>::empty()
        }),
    decreases k,
{
    if k > 0 {
        only_claimant(keys, (k - 1) as nat, pat, inst, sig, at);
        assert(iface_infer::claims(keys[k - 1], pat, inst, sig) <==> k - 1 == at);
        assert(iface_infer::claimants(keys, k, pat, inst, sig) =~= (if 0 <= at < k {
            seq![at]
        } else {
            Seq::<int>::empty()
        }));
    }
}

proof fn claimants_add_up(
    keys: KeysV,
    k: nat,
    pat: PatternV,
    inst: Seq<char>,
    sig: Seq<char>,
    a: int,
    b: int,
)
    requires
        k <= keys.len(),
        0 <= a < b,
        a < keys.len(),
        iface_infer::claims(keys[a], pat, inst, sig),
        b < keys.len() ==> iface_infer::claims(keys[b], pat, inst, sig),
    ensures
        a < k ==> iface_infer::claimants(keys, k, pat, inst, sig).len() >= 1,
        b < k ==> iface_infer::claimants(keys, k, pat, inst, sig).len() >= 2,
    decreases k,
{
    if k > 0 {
        claimants_add_up(keys, (k - 1) as nat, pat, inst, sig, a, b);
    }
}

/// Where exactly one pin stands for each signal of an instance, inference makes a port of
/// them: each signal has its direction's role and lies at its pin.
pub proof fn one_pin_for_each_signal_makes_a_port(
    before: PartV,
    after: PartV,
    n: int,
    inst: Seq<char>,
    at: Seq<int>,
    j: int,
)
    requires
        iface_infer::inferred(
            before.pins,
            iface_infer::pin_keys(before.pins),
            before.interfaces,
            after.interfaces,
        ),
        0 <= n < iface_infer::patterns().len(),
        at.len() == iface_infer::patterns()[n].signals.len(),
        forall|k: int| 0 <= k < at.len() ==> 0 <= #[trigger] at[k] < before.pins.len(),
        forall|k: int, i: int|
            #![trigger at[k], before.pins[i]]
            0 <= k < at.len() && 0 <= i < before.pins.len() ==> (stands_for(
                before.pins[i],
                n,
                inst,
                iface_infer::patterns()[n].signals[k].0,
            ) <==> i == at[k]),
        !names::has(
            before.interfaces,
            iface_infer::port_of(iface_infer::patterns()[n].kind, inst),
        ),
        0 <= j < at.len(),
    ensures
        ({
            let pat = iface_infer::patterns()[n];
            let id = iface_infer::port_of(pat.kind, inst) + seq!['.'] + pat.signals[j].0;
            &&& part::role_of(after, id) == Some(part::dir_role(pat.signals[j].1))
            &&& part::offset_of(after, id) == Some(before.pins[at[j]].offset)
        }),
{
    let pat = iface_infer::patterns()[n];
    let keys = iface_infer::pin_keys(before.pins);
    assert forall|k: int| 0 <= k < pat.signals.len() implies #[trigger] iface_infer::settled(
        keys,
        pat,
        inst,
        k,
    ) by {
        one_claims(before.pins, n, inst, k, at[k]);
    }
    one_claims(before.pins, n, inst, j, at[j]);
    iface_infer::inferred_ports_resolve(before, after, n, inst, j);
}

proof fn one_claims(pins: Seq<PinV>, n: int, inst: Seq<char>, k: int, at: int)
    requires
        0 <= n < iface_infer::patterns().len(),
        0 <= k < iface_infer::patterns()[n].signals.len(),
        0 <= at < pins.len(),
        forall|i: int|
            0 <= i < pins.len() ==> (stands_for(
                #[trigger] pins[i],
                n,
                inst,
                iface_infer::patterns()[n].signals[k].0,
            ) <==> i == at),
    ensures
        iface_infer::claimants(
            iface_infer::pin_keys(pins),
            pins.len(),
            iface_infer::patterns()[n],
            inst,
            iface_infer::patterns()[n].signals[k].0,
        ) == seq![at],
{
    let pat = iface_infer::patterns()[n];
    let keys = iface_infer::pin_keys(pins);
    let sig = pat.signals[k].0;
    assert forall|i: int| 0 <= i < keys.len() implies (iface_infer::claims(
        #[trigger] keys[i],
        pat,
        inst,
        sig,
    ) <==> i == at) by {
        standing_is_claiming(pins, i, n, inst, sig);
        assert(stands_for(pins[i], n, inst, sig) <==> i == at);
    }
    only_claimant(keys, keys.len(), pat, inst, sig, at);
}

proof fn none_claim(
    keys: KeysV,
    k: nat,
    pat: PatternV,
    inst: Seq<char>,
    sig: Seq<char>,
)
    requires
        k <= keys.len(),
        forall|i: int|
            0 <= i < keys.len() ==> !iface_infer::claims(#[trigger] keys[i], pat, inst, sig),
    ensures
        iface_infer::claimants(keys, k, pat, inst, sig).len() == 0,
    decreases k,
{
    if k > 0 {
        none_claim(keys, (k - 1) as nat, pat, inst, sig);
        assert(!iface_infer::claims(keys[k - 1], pat, inst, sig));
    }
}

/// Where a signal of an instance has no pin, or more than one, inference makes no port of it.
pub proof fn incomplete_or_ambiguous_names_make_no_port(
    before: PartV,
    after: PartV,
    n: int,
    inst: Seq<char>,
    k: int,
    a: int,
    b: int,
)
    requires
        iface_infer::inferred(
            before.pins,
            iface_infer::pin_keys(before.pins),
            before.interfaces,
            after.interfaces,
        ),
        0 <= n < iface_infer::patterns().len(),
        0 <= k < iface_infer::patterns()[n].signals.len(),
        ({
            let sig = iface_infer::patterns()[n].signals[k].0;
            ||| forall|i: int|
                0 <= i < before.pins.len() ==> !stands_for(
                    #[trigger] before.pins[i],
                    n,
                    inst,
                    sig,
                )
            ||| 0 <= a < b < before.pins.len() && stands_for(before.pins[a], n, inst, sig)
                && stands_for(before.pins[b], n, inst, sig)
        }),
        !names::has(
            before.interfaces,
            iface_infer::port_of(iface_infer::patterns()[n].kind, inst),
        ),
    ensures
        !names::has(
            after.interfaces,
            iface_infer::port_of(iface_infer::patterns()[n].kind, inst),
        ),
{
    let pat = iface_infer::patterns()[n];
    let keys = iface_infer::pin_keys(before.pins);
    let sig = pat.signals[k].0;
    let port = iface_infer::port_of(pat.kind, inst);
    if names::has(after.interfaces, port) {
        assert(iface_infer::is_matched_port(keys, port));
        let (m, other) = choose|m: int, other: Seq<char>|
            0 <= m < iface_infer::patterns().len() && #[trigger] iface_infer::matched(
                keys,
                iface_infer::patterns()[m],
                other,
            ) && port == iface_infer::port_of(iface_infer::patterns()[m].kind, other);
        iface_infer::ports_are_distinct(n, m, inst, other);
        assert(iface_infer::settled(keys, pat, inst, k));
        if forall|i: int|
            0 <= i < before.pins.len() ==> !stands_for(#[trigger] before.pins[i], n, inst, sig) {
            assert forall|i: int| 0 <= i < keys.len() implies !iface_infer::claims(
                #[trigger] keys[i],
                pat,
                inst,
                sig,
            ) by {
                standing_is_claiming(before.pins, i, n, inst, sig);
                assert(!stands_for(before.pins[i], n, inst, sig));
            }
            none_claim(keys, keys.len(), pat, inst, sig);
        } else {
            standing_is_claiming(before.pins, a, n, inst, sig);
            standing_is_claiming(before.pins, b, n, inst, sig);
            claimants_add_up(keys, keys.len(), pat, inst, sig, a, b);
        }
        assert(false);
    }
}

// ---------------------------------------------------------------------------
// The overlay.
// ---------------------------------------------------------------------------

/// The signal is one of the pattern's.
pub open spec fn is_signal(pat: PatternV, sig: Seq<char>) -> bool {
    exists|j: int| 0 <= j < pat.signals.len() && (#[trigger] pat.signals[j]).0 == sig
}

/// The signal has a binding.
pub open spec fn is_bound(bs: Seq<(Seq<char>, Seq<char>)>, sig: Seq<char>) -> bool {
    exists|i: int| 0 <= i < bs.len() && (#[trigger] bs[i]).0 == sig
}

/// The selector names one pad, and the part has it.
pub open spec fn selects_one(p: PartV, sel: Seq<char>) -> bool {
    part::selected(p, sel).len() == 1 && part::offset_of(p, part::selected(p, sel)[0]) is Some
}

/// The bindings are complete: each is of a signal, no two are of one, every signal has one,
/// and each names one pad.
pub open spec fn binds_all(p: PartV, pat: PatternV, bs: Seq<(Seq<char>, Seq<char>)>) -> bool {
    &&& forall|i: int| 0 <= i < bs.len() ==> is_signal(pat, (#[trigger] bs[i]).0)
    &&& forall|i: int, j: int|
        0 <= i < j < bs.len() ==> (#[trigger] bs[i]).0 != (#[trigger] bs[j]).0
    &&& forall|j: int| 0 <= j < pat.signals.len() ==> is_bound(bs, (#[trigger] pat.signals[j]).0)
    &&& forall|i: int| 0 <= i < bs.len() ==> selects_one(p, (#[trigger] bs[i]).1)
}

proof fn signal_is_found(signals: Seq<(Seq<char>, Dir)>, sig: Seq<char>)
    ensures
        0 <= iface_infer::signal_index(signals, sig) <= signals.len(),
        iface_infer::signal_index(signals, sig) < signals.len() <==> exists|j: int|
            0 <= j < signals.len() && (#[trigger] signals[j]).0 == sig,
    decreases signals.len(),
{
    if signals.len() > 0 {
        let t = signals.skip(1);
        signal_is_found(t, sig);
        if signals[0].0 != sig {
            if exists|j: int| 0 <= j < signals.len() && (#[trigger] signals[j]).0 == sig {
                let j = choose|j: int| 0 <= j < signals.len() && (#[trigger] signals[j]).0 == sig;
                assert(t[j - 1].0 == sig);
            }
            if exists|j: int| 0 <= j < t.len() && (#[trigger] t[j]).0 == sig {
                let j = choose|j: int| 0 <= j < t.len() && (#[trigger] t[j]).0 == sig;
                assert(signals[j + 1].0 == sig);
            }
        }
    }
}

proof fn binding_is_found(bs: Seq<(Seq<char>, Seq<char>)>, sig: Seq<char>)
    ensures
        0 <= iface_infer::binding_index(bs, sig) <= bs.len(),
        iface_infer::binding_index(bs, sig) < bs.len() <==> is_bound(bs, sig),
        iface_infer::binding_index(bs, sig) < bs.len() ==> bs[iface_infer::binding_index(
            bs,
            sig,
        )].0 == sig,
    decreases bs.len(),
{
    if bs.len() > 0 {
        let t = bs.skip(1);
        binding_is_found(t, sig);
        if bs[0].0 != sig {
            if is_bound(bs, sig) {
                let j = choose|j: int| 0 <= j < bs.len() && (#[trigger] bs[j]).0 == sig;
                assert(t[j - 1].0 == sig);
            }
            if is_bound(t, sig) {
                let j = choose|j: int| 0 <= j < t.len() && (#[trigger] t[j]).0 == sig;
                assert(bs[j + 1].0 == sig);
            }
        }
    }
}

/// The binding is of a signal, and none before it is of the same.
spec fn is_fresh(pat: PatternV, bs: Seq<(Seq<char>, Seq<char>)>, i: int) -> bool {
    is_signal(pat, bs[i].0) && !is_bound(bs.take(i), bs[i].0)
}

proof fn faultless_is_fresh(pat: PatternV, bs: Seq<(Seq<char>, Seq<char>)>, i: int)
    requires
        0 <= i <= bs.len(),
    ensures
        iface_infer::first_fault(pat, bs, i) is None <==> forall|k: int|
            i <= k < bs.len() ==> #[trigger] is_fresh(pat, bs, k),
    decreases bs.len() - i,
{
    if i < bs.len() {
        faultless_is_fresh(pat, bs, i + 1);
        signal_is_found(pat.signals, bs[i].0);
        binding_is_found(bs.take(i), bs[i].0);
        assert(iface_infer::binding_fault(pat, bs, i) is None <==> is_fresh(pat, bs, i));
        if forall|k: int| i <= k < bs.len() ==> #[trigger] is_fresh(pat, bs, k) {
            assert(is_fresh(pat, bs, i));
        }
    }
}

proof fn none_unbound_is_bound(pat: PatternV, bs: Seq<(Seq<char>, Seq<char>)>, i: int)
    requires
        0 <= i <= pat.signals.len(),
    ensures
        iface_infer::first_unbound(pat, bs, i) is None <==> forall|j: int|
            i <= j < pat.signals.len() ==> is_bound(bs, (#[trigger] pat.signals[j]).0),
    decreases pat.signals.len() - i,
{
    if i < pat.signals.len() {
        none_unbound_is_bound(pat, bs, i + 1);
        binding_is_found(bs, pat.signals[i].0);
        if forall|j: int|
            i <= j < pat.signals.len() ==> is_bound(bs, (#[trigger] pat.signals[j]).0) {
            assert(is_bound(bs, pat.signals[i].0));
        }
    }
}

proof fn fresh_is_distinct(pat: PatternV, bs: Seq<(Seq<char>, Seq<char>)>)
    ensures
        (forall|k: int| 0 <= k < bs.len() ==> #[trigger] is_fresh(pat, bs, k)) <==> ((forall|i: int|
            0 <= i < bs.len() ==> is_signal(pat, (#[trigger] bs[i]).0)) && (forall|i: int, j: int|
            0 <= i < j < bs.len() ==> (#[trigger] bs[i]).0 != (#[trigger] bs[j]).0)),
{
    if forall|k: int| 0 <= k < bs.len() ==> #[trigger] is_fresh(pat, bs, k) {
        assert forall|i: int| 0 <= i < bs.len() implies is_signal(pat, (#[trigger] bs[i]).0) by {
            assert(is_fresh(pat, bs, i));
        }
        assert forall|i: int, j: int| 0 <= i < j < bs.len() implies (#[trigger] bs[i]).0 != (
        #[trigger] bs[j]).0 by {
            assert(is_fresh(pat, bs, j));
            assert(bs.take(j)[i] == bs[i]);
        }
    }
    if (forall|i: int| 0 <= i < bs.len() ==> is_signal(pat, (#[trigger] bs[i]).0)) && (forall|
        i: int,
        j: int,
    | 0 <= i < j < bs.len() ==> (#[trigger] bs[i]).0 != (#[trigger] bs[j]).0) {
        assert forall|k: int| 0 <= k < bs.len() implies #[trigger] is_fresh(pat, bs, k) by {
            if is_bound(bs.take(k), bs[k].0) {
                let i = choose|i: int|
                    0 <= i < bs.take(k).len() && (#[trigger] bs.take(k)[i]).0 == bs[k].0;
                assert(bs[i].0 == bs[k].0);
            }
        }
    }
}

proof fn offsets_are_selected(
    p: PartV,
    pat: PatternV,
    bs: Seq<(Seq<char>, Seq<char>)>,
    k: nat,
)
    requires
        k <= pat.signals.len(),
    ensures
        iface_infer::selected_offsets(p, pat, bs, k) is Ok <==> forall|j: int|
            0 <= j < k ==> #[trigger] iface_infer::selected_offset(p, pat, bs, j) is Ok,
        iface_infer::selected_offsets(p, pat, bs, k) matches Ok(v) ==> v.len() == k && forall|j: int|
            0 <= j < k ==> iface_infer::selected_offset(p, pat, bs, j) == Ok::<Point, Seq<char>>(
                #[trigger] v[j],
            ),
    decreases k,
{
    if k > 0 {
        offsets_are_selected(p, pat, bs, (k - 1) as nat);
        if forall|j: int|
            0 <= j < k ==> #[trigger] iface_infer::selected_offset(p, pat, bs, j) is Ok {
            assert(iface_infer::selected_offset(p, pat, bs, k - 1) is Ok);
        }
    }
}

proof fn kind_is_found(n: int, kind: Seq<char>)
    requires
        0 <= n < iface_infer::patterns().len(),
        iface_infer::same_letters(iface_infer::patterns()[n].kind, kind),
    ensures
        iface_infer::pattern_index(iface_infer::patterns(), kind) == n,
{
    reveal_strlit("UART");
    reveal_strlit("SPI");
    reveal_strlit("I2C");
    reveal_strlit("SWD");
    let ps = iface_infer::patterns();
    let low = iface_infer::lowered(kind);
    assert(low[0] == iface_infer::lowered(ps[n].kind)[0]);
    assert(low[1] == iface_infer::lowered(ps[n].kind)[1]);
    assert(iface_infer::lowered(ps[0].kind)[0] == 'u');
    assert(iface_infer::lowered(ps[1].kind)[0] == 's' && iface_infer::lowered(ps[1].kind)[1]
        == 'p');
    assert(iface_infer::lowered(ps[2].kind)[0] == 'i');
    assert(iface_infer::lowered(ps[3].kind)[0] == 's' && iface_infer::lowered(ps[3].kind)[1]
        == 'w');
    reveal_with_fuel(iface_infer::pattern_index, 5);
    assert(ps.skip(1)[0] == ps[1]);
    assert(ps.skip(1).skip(1)[0] == ps[2]);
    assert(ps.skip(1).skip(1).skip(1)[0] == ps[3]);
}

/// An overlay is taken exactly where the port is free and the bindings are complete. Each
/// signal then lies at the pad that its binding names.
pub proof fn an_overlay_needs_one_pad_for_each_signal(
    p: PartV,
    n: int,
    kind: Seq<char>,
    port: Seq<char>,
    bs: Seq<(Seq<char>, Seq<char>)>,
    i: int,
)
    requires
        0 <= n < iface_infer::patterns().len(),
        iface_infer::same_letters(iface_infer::patterns()[n].kind, kind),
    ensures
        ({
            let pat = iface_infer::patterns()[n];
            let r = iface_infer::overlaid(p, kind, port, bs);
            &&& r is Ok <==> !names::has(p.interfaces, port) && binds_all(p, pat, bs)
            &&& r is Ok && 0 <= i < bs.len() ==> names::lookup(r->Ok_0.offsets, bs[i].0)
                == part::offset_of(p, part::selected(p, bs[i].1)[0])
        }),
{
    let pat = iface_infer::patterns()[n];
    kind_is_found(n, kind);
    faultless_is_fresh(pat, bs, 0);
    fresh_is_distinct(pat, bs);
    none_unbound_is_bound(pat, bs, 0);
    offsets_are_selected(p, pat, bs, pat.signals.len());
    let fresh = forall|k: int| 0 <= k < bs.len() ==> #[trigger] is_fresh(pat, bs, k);
    let bound = forall|j: int|
        0 <= j < pat.signals.len() ==> is_bound(bs, (#[trigger] pat.signals[j]).0);
    if fresh && bound {
        // Each signal's first binding is its only one, and each binding is some signal's.
        assert forall|j: int| 0 <= j < pat.signals.len() implies (
        #[trigger] iface_infer::selected_offset(p, pat, bs, j) is Ok <==> selects_one(
            p,
            bs[iface_infer::binding_index(bs, pat.signals[j].0)].1,
        )) by {}
        if forall|j: int|
            0 <= j < pat.signals.len() ==> #[trigger] iface_infer::selected_offset(p, pat, bs, j)
                is Ok {
            assert forall|k: int| 0 <= k < bs.len() implies selects_one(p, (#[trigger] bs[k]).1) by {
                let j = choose|j: int|
                    0 <= j < pat.signals.len() && (#[trigger] pat.signals[j]).0 == bs[k].0;
                binding_is_found(bs, bs[k].0);
                assert(is_bound(bs, bs[k].0));
                assert(iface_infer::binding_index(bs, bs[k].0) == k);
                assert(iface_infer::selected_offset(p, pat, bs, j) is Ok);
            }
        }
        if forall|k: int| 0 <= k < bs.len() ==> selects_one(p, (#[trigger] bs[k]).1) {
            assert forall|j: int| 0 <= j < pat.signals.len() implies (
            #[trigger] iface_infer::selected_offset(p, pat, bs, j)) is Ok by {
                assert(is_bound(bs, pat.signals[j].0));
                binding_is_found(bs, pat.signals[j].0);
                assert(selects_one(
                    p,
                    bs[iface_infer::binding_index(bs, pat.signals[j].0)].1,
                ));
            }
        }
        if iface_infer::overlaid(p, kind, port, bs) is Ok && 0 <= i < bs.len() {
            let v = iface_infer::selected_offsets(p, pat, bs, pat.signals.len())->Ok_0;
            let j = choose|j: int|
                0 <= j < pat.signals.len() && (#[trigger] pat.signals[j]).0 == bs[i].0;
            assert(is_bound(bs, bs[i].0));
            binding_is_found(bs, bs[i].0);
            assert(iface_infer::binding_index(bs, bs[i].0) == i);
            assert(iface_infer::selected_offset(p, pat, bs, j) == Ok::<Point, Seq<char>>(v[j]));
            iface_infer::registry_signals_are_distinct(n);
            iface_infer::maps_hold_every_signal(pat.signals, v, pat.signals.len(), j);
        }
    }
}

} // verus!
