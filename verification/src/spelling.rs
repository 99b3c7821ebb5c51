//! How names are ordered and numbers are spelled.

use crate::text;
use vstd::prelude::*;

verus! {

/// Names are in the order of a dictionary: the first character that differs decides, and a
/// name comes before every longer one that begins with it.
pub proof fn names_are_in_dictionary_order(a: Seq<char>, b: Seq<char>, k: int)
    requires
        0 <= k <= a.len(),
        k <= b.len(),
        a.take(k) == b.take(k),
    ensures
        k < a.len() && k < b.len() && (a[k] as int) < (b[k] as int) ==> text::lex_lt(a, b)
            && !text::lex_lt(b, a),
        k == a.len() && k < b.len() ==> text::lex_lt(a, b) && !text::lex_lt(b, a),
    decreases k,
{
    if k > 0 {
        assert(a[0] == a.take(k)[0] && b[0] == b.take(k)[0]);
        let (s, t) = (a.skip(1), b.skip(1));
        assert(s.take(k - 1) =~= a.take(k).skip(1));
        assert(t.take(k - 1) =~= b.take(k).skip(1));
        names_are_in_dictionary_order(s, t, k - 1);
        if k < a.len() && k < b.len() {
            assert(s[k - 1] == a[k] && t[k - 1] == b[k]);
        }
    }
}

/// The number that a row of digits stands for.
pub open spec fn stands_for(s: Seq<char>) -> int
    decreases s.len(),
{
    if s.len() == 0 {
        0
    } else {
        10 * stands_for(s.drop_last()) + (s.last() as int - '0' as int)
    }
}

/// The text is a row of digits without a needless zero in front.
pub open spec fn is_plain_number(s: Seq<char>) -> bool {
    &&& s.len() > 0
    &&& forall|i: int| 0 <= i < s.len() ==> '0' <= #[trigger] s[i] && s[i] <= '9'
    &&& s[0] == '0' ==> s.len() == 1
}

proof fn digit_is_its_value(n: nat)
    requires
        n < 10,
    ensures
        text::digit_char(n) as int == '0' as int + n,
        '0' <= text::digit_char(n) && text::digit_char(n) <= '9',
{
    assert((48 + n) as u8 == 48 + n);
}

proof fn natural_reads_back(n: nat)
    ensures
        is_plain_number(text::nat_text(n)),
        stands_for(text::nat_text(n)) == n,
        n > 0 ==> text::nat_text(n)[0] != '0',
    decreases n,
{
    let s = text::nat_text(n);
    if n < 10 {
        digit_is_its_value(n);
        assert(s.drop_last() =~= Seq::<char>::empty());
        reveal_with_fuel(stands_for, 2);
    } else {
        natural_reads_back(n / 10);
        digit_is_its_value(n % 10);
        let t = text::nat_text(n / 10);
        assert(s.drop_last() =~= t);
        assert(s[0] == t[0]);
        assert forall|i: int| 0 <= i < s.len() implies '0' <= #[trigger] s[i] && s[i] <= '9' by {
            if i < t.len() {
                assert(s[i] == t[i]);
            }
        }
    }
}

/// A number is spelled in decimal digits that read back as the number, behind a minus sign
/// where it is negative.
pub proof fn a_spelled_number_reads_back(n: int)
    ensures
        n >= 0 ==> is_plain_number(text::int_text(n)) && stands_for(text::int_text(n)) == n,
        n < 0 ==> text::int_text(n)[0] == '-' && is_plain_number(text::int_text(n).skip(1))
            && stands_for(text::int_text(n).skip(1)) == -n,
{
    if n >= 0 {
        natural_reads_back(n as nat);
    } else {
        natural_reads_back((-n) as nat);
        assert(text::int_text(n).skip(1) =~= text::nat_text((-n) as nat));
    }
}

} // verus!
