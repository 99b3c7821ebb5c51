//! What the text view of a document says.

use crate::coord;
use crate::coord::Orient;
use crate::doc::{DocV, PinRefV, Provenance};
use crate::project;
use crate::text;
use vstd::prelude::*;

verus! {

/// The text has the piece in it.
pub open spec fn says(t: Seq<char>, piece: Seq<char>) -> bool {
    exists|i: int| 0 <= i <= t.len() - piece.len() && #[trigger] t.subrange(i, i + piece.len())
        == piece
}

proof fn said_within(a: Seq<char>, piece: Seq<char>, b: Seq<char>)
    ensures
        says(a + piece + b, piece),
{
    let t = a + piece + b;
    let i = a.len() as int;
    assert(t.subrange(i, i + piece.len()) =~= piece);
}

proof fn said_by_a_part(a: Seq<char>, t: Seq<char>, b: Seq<char>, piece: Seq<char>)
    requires
        says(t, piece),
    ensures
        says(a + t + b, piece),
{
    let i = choose|i: int|
        0 <= i <= t.len() - piece.len() && #[trigger] t.subrange(i, i + piece.len()) == piece;
    let whole = a + t + b;
    let j = a.len() + i;
    assert(whole.subrange(j, j + piece.len()) =~= t.subrange(i, i + piece.len()));
}

/// How a component is turned, where its orientation is a turn by `k` right angles: nothing
/// for none, else the degrees.
pub open spec fn turn_words(o: Orient, k: int, angle: i32) -> Seq<char> {
    if o == coord::quarter_turn(0) {
        Seq::empty()
    } else if coord::turns_by(o, k) {
        " rot="@ + text::int_text(90 * k)
    } else {
        " rot="@ + text::int_text(angle as int)
    }
}

/// The word for who decided.
pub open spec fn is_word_for(w: Seq<char>, p: Provenance) -> bool {
    match p {
        Provenance::Free => w == "free"@,
        Provenance::Hint => w == "hint"@,
        Provenance::Pinned => w == "pinned"@,
        Provenance::Fixed => w == "fixed"@,
    }
}

proof fn lines_say(d: DocV, angles: Seq<i32>, k: nat, i: int)
    requires
        0 <= i < k <= d.components.len(),
    ensures
        says(
            project::component_lines(d, angles, k),
            project::component_line(d.components[i].1, angles[i]),
        ),
    decreases k,
{
    let done = project::component_lines(d, angles, (k - 1) as nat);
    let line = project::component_line(d.components[k - 1].1, angles[k - 1]);
    let none = Seq::<char>::empty();
    if i == k - 1 {
        said_within(done, line, none);
        assert(done + line + none =~= done + line);
    } else {
        lines_say(d, angles, (k - 1) as nat, i);
        said_by_a_part(
            none,
            done,
            line,
            project::component_line(d.components[i].1, angles[i]),
        );
        assert(none + done + line =~= done + line);
    }
}

proof fn rendered_in_parts(d: DocV, angles: Seq<i32>)
    ensures
        ({
            let none = Seq::<char>::empty();
            let a = project::component_lines(d, angles, d.components.len());
            let b = project::net_lines(d, d.nets.len());
            let r = project::report_text(d.report);
            &&& project::rendered(d, angles) == "# components\n"@ + a + ("# nets\n"@ + b + r)
            &&& project::rendered(d, angles) == ("# components\n"@ + a + "# nets\n"@) + b + r
            &&& project::rendered(d, angles) == ("# components\n"@ + a + "# nets\n"@ + b) + r + none
        }),
{
    let none = Seq::<char>::empty();
    let a = project::component_lines(d, angles, d.components.len());
    let b = project::net_lines(d, d.nets.len());
    let r = project::report_text(d.report);
    let t = project::rendered(d, angles);
    assert(t =~= "# components\n"@ + a + ("# nets\n"@ + b + r));
    assert(t =~= ("# components\n"@ + a + "# nets\n"@) + b + r);
    assert(t =~= ("# components\n"@ + a + "# nets\n"@ + b) + r + none);
}

/// Every component stands in the text: its name, its part, where it is, and how it is
/// turned, in that order.
pub proof fn every_component_is_listed(d: DocV, angles: Seq<i32>, i: int, k: int, w: Seq<char>)
    requires
        0 <= i < d.components.len(),
        0 <= k < 4,
        coord::cardinal(d.components[i].1.orient) ==> coord::turns_by(
            d.components[i].1.orient,
            k,
        ),
        !coord::cardinal(d.components[i].1.orient) ==> !coord::turns_by(
            d.components[i].1.orient,
            k,
        ),
        is_word_for(w, d.components[i].1.pos.prov),
    ensures
        ({
            let c = d.components[i].1;
            says(
                project::rendered(d, angles),
                "  "@ + c.id + ": "@ + c.part + " @ ("@ + text::int_text(c.pos.value.x as int) + ","@
                    + text::int_text(c.pos.value.y as int) + ")"@ + turn_words(
                    c.orient,
                    k,
                    angles[i],
                ) + " ["@ + w + "]\n"@,
            )
        }),
{
    let c = d.components[i].1;
    let a = project::component_lines(d, angles, d.components.len());
    turn_is_said(c.orient, k, angles[i]);
    lines_say(d, angles, d.components.len(), i);
    rendered_in_parts(d, angles);
    said_by_a_part(
        "# components\n"@,
        a,
        "# nets\n"@ + project::net_lines(d, d.nets.len()) + project::report_text(d.report),
        project::component_line(c, angles[i]),
    );
}

proof fn turn_is_said(o: Orient, k: int, angle: i32)
    requires
        0 <= k < 4,
        coord::cardinal(o) ==> coord::turns_by(o, k),
        !coord::cardinal(o) ==> !coord::turns_by(o, k),
    ensures
        project::turn_text(o, angle) == turn_words(o, k, angle),
{
    let (w, z) = (o.w as int, o.z as int);
    if coord::cardinal(o) {
        assert(0 * 0 == 0);
        assert(w != 0 || z != 0) by (nonlinear_arith)
            requires
                w * w + z * z != 0,
        ;
        assert(coord::degrees_of(o) == 90 * k);
    }
}

proof fn member_is_said(members: Seq<PinRefV>, k: nat, j: int)
    requires
        0 <= j < k <= members.len(),
    ensures
        says(
            project::members_text(members, k),
            members[j].comp + seq!['.'] + members[j].pin,
        ),
    decreases k,
{
    reveal_strlit(".");
    let none = Seq::<char>::empty();
    let pin = members[k - 1].comp + "."@ + members[k - 1].pin;
    assert("."@ =~= seq!['.']);
    let done = project::members_text(members, (k - 1) as nat);
    if j == k - 1 {
        if k == 1 {
            said_within(none, pin, none);
            assert(none + pin + none =~= pin);
        } else {
            said_within(done + " — "@, pin, none);
            assert(done + " — "@ + pin + none =~= done + " — "@ + pin);
        }
    } else {
        member_is_said(members, (k - 1) as nat, j);
        said_by_a_part(none, done, " — "@ + pin, members[j].comp + seq!['.'] + members[j].pin);
        assert(none + done + (" — "@ + pin) =~= done + " — "@ + pin);
    }
}

proof fn net_lines_say(d: DocV, k: nat, i: int, piece: Seq<char>)
    requires
        0 <= i < k <= d.nets.len(),
        says(project::net_line(d.nets[i].1), piece),
    ensures
        says(project::net_lines(d, k), piece),
    decreases k,
{
    let done = project::net_lines(d, (k - 1) as nat);
    let line = project::net_line(d.nets[k - 1].1);
    let none = Seq::<char>::empty();
    if i == k - 1 {
        said_by_a_part(done, line, none, piece);
        assert(done + line + none =~= done + line);
    } else {
        net_lines_say(d, (k - 1) as nat, i, piece);
        said_by_a_part(none, done, line, piece);
        assert(none + done + line =~= done + line);
    }
}

/// Every net stands in the text with its name, and every one of its pins with the name of
/// its component.
pub proof fn every_net_is_listed(d: DocV, angles: Seq<i32>, i: int, j: int)
    requires
        0 <= i < d.nets.len(),
    ensures
        says(project::rendered(d, angles), d.nets[i].1.name + ": "@),
        0 <= j < d.nets[i].1.members.len() ==> says(
            project::rendered(d, angles),
            d.nets[i].1.members[j].comp + seq!['.'] + d.nets[i].1.members[j].pin,
        ),
{
    let n = d.nets[i].1;
    let ms = project::members_text(n.members, n.members.len());
    let line = project::net_line(n);
    let b = project::net_lines(d, d.nets.len());
    let head = "# components\n"@ + project::component_lines(d, angles, d.components.len())
        + "# nets\n"@;
    let tail = project::report_text(d.report);
    rendered_in_parts(d, angles);
    said_within("  "@, n.name + ": "@, ms + "\n"@);
    assert("  "@ + (n.name + ": "@) + (ms + "\n"@) =~= line);
    net_lines_say(d, d.nets.len(), i, n.name + ": "@);
    said_by_a_part(head, b, tail, n.name + ": "@);
    if 0 <= j < n.members.len() {
        let piece = n.members[j].comp + seq!['.'] + n.members[j].pin;
        member_is_said(n.members, n.members.len(), j);
        said_by_a_part("  "@ + n.name + ": "@, ms, "\n"@, piece);
        assert("  "@ + n.name + ": "@ + ms + "\n"@ =~= line);
        net_lines_say(d, d.nets.len(), i, piece);
        said_by_a_part(head, b, tail, piece);
    }
}

} // verus!
