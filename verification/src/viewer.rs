//! What the viewer decides: what exports hold and where they go, and when its window is shown or
//! hidden.
use crate::edits::{first_with_id, has_id, position};
use crate::model::{views, Target, TargetView};
use crate::text::{
    chars_of, decimal, decimals_differ, decimals_have_no_leading_zero, join_path, joined,
    push_decimal,
};
use vstd::prelude::*;
use vstd::string::StringExecFns;

verus! {

/// The file that an export of `[from, to)` goes to: named after the seconds at both ends.
pub open spec fn export_name(from: u64, to: u64) -> Seq<char> {
    "speed-daemon_"@ + decimal((from / 1000) as nat) + "-"@ + decimal((to / 1000) as nat) + ".csv"@
}

/// Where an export goes: the Downloads folder of the home directory where there is one, the home
/// directory itself otherwise. Without a home directory there is no place.
pub fn export_path(home: Option<String>, downloads_is_dir: bool, from: u64, to: u64) -> (r: Result<
    String,
    String,
>)
    ensures
        match home {
            Some(h) => r matches Ok(p) && p@ == joined(
                if downloads_is_dir {
                    joined(h@, "Downloads"@)
                } else {
                    h@
                },
                export_name(from, to),
            ),
            None => r matches Err(e) && e@ == "no HOME"@,
        },
{
    match home {
        Some(h) => {
            let mut name = "speed-daemon_".to_owned();
            push_decimal(&mut name, from / 1000);
            name.append("-");
            push_decimal(&mut name, to / 1000);
            name.append(".csv");
            let dir = if downloads_is_dir {
                join_path(h.as_str(), "Downloads")
            } else {
                h
            };
            Ok(join_path(dir.as_str(), name.as_str()))
        },
        None => Err("no HOME".to_owned()),
    }
}

/// The first line of an export.
pub const CSV_HEADER: &'static str = "ts,target_id,label,host,tag,rtt_ms\n";

/// A text with every quotation mark doubled.
pub open spec fn doubled(s: Seq<char>) -> Seq<char>
    decreases s.len(),
{
    if s.len() == 0 {
        s
    } else if s.last() == '"' {
        doubled(s.drop_last()).push('"').push('"')
    } else {
        doubled(s.drop_last()).push(s.last())
    }
}

/// A text as a field of an export: between quotation marks, its own doubled.
pub open spec fn quoted(s: Seq<char>) -> Seq<char> {
    seq!['"'] + doubled(s) + seq!['"']
}

/// Appends a text as a field of an export.
fn push_quoted(out: &mut String, s: &str)
    ensures
        final(out)@ == old(out)@ + quoted(s@),
{
    let ghost before = out@;
    let chars = chars_of(s);
    out.push('"');
    assert(out@ =~= before + seq!['"'] + doubled(chars@.take(0)));
    for i in 0..chars.len()
        invariant
            i <= chars@.len(),
            out@ == before + seq!['"'] + doubled(chars@.take(i as int)),
    {
        let c = chars[i];
        proof {
            assert(chars@.take(i + 1).drop_last() =~= chars@.take(i as int));
            assert(chars@.take(i + 1).last() == c);
        }
        if c == '"' {
            out.push('"');
        }
        out.push(c);
        assert(out@ =~= before + seq!['"'] + doubled(chars@.take(i + 1)));
    }
    out.push('"');
    assert(chars@.take(chars@.len() as int) =~= chars@);
    assert(out@ =~= before + quoted(s@));
}

/// A sample as a line of an export. The round-trip time is given as it is shown, and empty for a
/// probe that was lost.
pub open spec fn csv_view(
    ts: u64,
    id: Seq<char>,
    label: Seq<char>,
    host: Seq<char>,
    tag: Seq<char>,
    rtt: Seq<char>,
) -> Seq<char> {
    decimal(ts as nat) + ","@ + quoted(id) + ","@ + quoted(label) + ","@ + quoted(host) + ","@
        + quoted(tag) + ","@ + rtt + "\n"@
}

/// A sample as a line of an export.
pub fn csv_line(ts: u64, id: &str, label: &str, host: &str, tag: &str, rtt: &str) -> (r: String)
    ensures
        r@ == csv_view(ts, id@, label@, host@, tag@, rtt@),
{
    let mut r = String::new();
    push_decimal(&mut r, ts);
    r.append(",");
    push_quoted(&mut r, id);
    r.append(",");
    push_quoted(&mut r, label);
    r.append(",");
    push_quoted(&mut r, host);
    r.append(",");
    push_quoted(&mut r, tag);
    r.append(",");
    r.append(rtt);
    r.append("\n");
    assert(r@ =~= csv_view(ts, id@, label@, host@, tag@, rtt@));
    r
}

/// The label, the host and the tag of the first target with this id; empty where none has it.
pub open spec fn names_of(ts: Seq<TargetView>, id: Seq<char>) -> (Seq<char>, Seq<char>, Seq<char>) {
    if has_id(ts, id) {
        let t = ts[choose|i: int| first_with_id(ts, id, i)];
        (t.label, t.host, t.tag)
    } else {
        (Seq::empty(), Seq::empty(), Seq::empty())
    }
}

/// A sample as a line of an export, with the names of its target. A target that is no longer
/// configured has its id alone.
pub fn sample_line(targets: &Vec<Target>, ts: u64, id: &str, rtt: &str) -> (r: String)
    ensures
        r@ == csv_view(
            ts,
            id@,
            names_of(views(targets@), id@).0,
            names_of(views(targets@), id@).1,
            names_of(views(targets@), id@).2,
            rtt@,
        ),
{
    match position(targets, id) {
        Some(i) => {
            proof {
                let all = views(targets@);
                let k = choose|k: int| first_with_id(all, id@, k);
                assert(first_with_id(all, id@, k));
                assert(k == i);
                assert(has_id(all, id@));
            }
            let t = &targets[i];
            csv_line(ts, id, t.label.as_str(), t.host.as_str(), t.tag.as_str(), rtt)
        },
        None => {
            proof {
                reveal_strlit("");
                assert(""@ =~= Seq::<char>::empty());
            }
            csv_line(ts, id, "", "", "", rtt)
        },
    }
}

/// Different texts are different fields.
pub proof fn fields_differ(a: Seq<char>, b: Seq<char>)
    requires
        quoted(a) == quoted(b),
    ensures
        a == b,
{
    let x = quoted(a);
    let y = quoted(b);
    assert(x.subrange(1, x.len() - 1) =~= doubled(a));
    assert(y.subrange(1, y.len() - 1) =~= doubled(b));
    lemma_doubled(a, b);
}

/// Doubling loses nothing.
proof fn lemma_doubled(a: Seq<char>, b: Seq<char>)
    requires
        doubled(a) == doubled(b),
    ensures
        a == b,
    decreases a.len(),
{
    if a.len() == 0 || b.len() == 0 {
        assert(a.len() == 0 && b.len() == 0);
        assert(a =~= b);
    } else {
        let (p, q) = (doubled(a.drop_last()), doubled(b.drop_last()));
        assert(doubled(a).last() == a.last() && doubled(b).last() == b.last());
        assert(doubled(a).drop_last() =~= if a.last() == '"' {
            p.push('"')
        } else {
            p
        });
        assert(doubled(b).drop_last() =~= if b.last() == '"' {
            q.push('"')
        } else {
            q
        });
        if a.last() == '"' {
            assert(p.push('"').drop_last() =~= p);
            assert(q.push('"').drop_last() =~= q);
        }
        lemma_doubled(a.drop_last(), b.drop_last());
        assert(a =~= a.drop_last().push(a.last()));
        assert(b =~= b.drop_last().push(b.last()));
    }
}

/// What the window does when the hide flag is looked at.
#[derive(Clone, Copy, PartialEq, Eq, Structural, Debug)]
pub enum FlagMove {
    Hide,
    Show,
    Stay,
}

/// The window hides when the flag appears or is touched, shows when it is removed, and is left
/// alone as long as nothing changes. Times are those of the flag's last modification.
pub fn flag_move(last: Option<u128>, now: Option<u128>) -> (r: FlagMove)
    ensures
        r is Hide <==> now is Some && last != now,
        r is Show <==> now is None && last is Some,
        r is Stay <==> last == now,
{
    match (last, now) {
        (Some(a), Some(b)) => if a != b {
            FlagMove::Hide
        } else {
            FlagMove::Stay
        },
        (None, Some(_)) => FlagMove::Hide,
        (Some(_), None) => FlagMove::Show,
        (None, None) => FlagMove::Stay,
    }
}

/// What can happen to the viewer.
#[derive(Debug)]
pub enum ViewerEvent {
    /// An entry of the menu-bar icon's menu was chosen.
    Menu(String),
    /// The menu-bar icon was clicked, with the left button or another; the button went up or down.
    IconClick { left: bool, up: bool },
    /// The window is asked to close.
    CloseRequested,
    /// The application is opened again while it runs.
    Reopened,
    /// Anything else.
    Other,
}

/// What the viewer does.
#[derive(Clone, Copy, PartialEq, Eq, Structural, Debug)]
pub enum ViewerAct {
    /// Show the window and give it the focus.
    Show,
    /// Keep the window from closing, and hide it.
    Hide,
    /// Quit.
    Exit,
    Nothing,
}

/// The menu's `show`, a left click once the button is up, and opening the application again show
/// the window; closing it only hides it; the menu's `quit` is what ends the viewer.
pub fn viewer_act(e: &ViewerEvent) -> (r: ViewerAct)
    ensures
        r == (match *e {
            ViewerEvent::Menu(id) => if id@ == "show"@ {
                ViewerAct::Show
            } else if id@ == "quit"@ {
                ViewerAct::Exit
            } else {
                ViewerAct::Nothing
            },
            ViewerEvent::IconClick { left, up } => if left && up {
                ViewerAct::Show
            } else {
                ViewerAct::Nothing
            },
            ViewerEvent::CloseRequested => ViewerAct::Hide,
            ViewerEvent::Reopened => ViewerAct::Show,
            ViewerEvent::Other => ViewerAct::Nothing,
        }),
        r is Exit ==> (*e matches ViewerEvent::Menu(id) && id@ == "quit"@),
        *e matches ViewerEvent::Menu(id) ==> id@ == "quit"@ ==> r is Exit,
        *e matches ViewerEvent::Menu(id) ==> id@ == "show"@ ==> r is Show,
        *e is CloseRequested <==> r is Hide,
        *e is Reopened ==> r is Show,
        *e matches ViewerEvent::IconClick { left, up } ==> (r is Show <==> left && up),
        *e is Other ==> r is Nothing,
{
    proof {
        reveal_strlit("show");
        reveal_strlit("quit");
        assert("show"@[0] != "quit"@[0]);
    }
    match e {
        ViewerEvent::Menu(id) => {
            if id.as_str().eq("show") {
                ViewerAct::Show
            } else if id.as_str().eq("quit") {
                ViewerAct::Exit
            } else {
                ViewerAct::Nothing
            }
        },
        ViewerEvent::IconClick { left, up } => {
            if *left && *up {
                ViewerAct::Show
            } else {
                ViewerAct::Nothing
            }
        },
        ViewerEvent::CloseRequested => ViewerAct::Hide,
        ViewerEvent::Reopened => ViewerAct::Show,
        ViewerEvent::Other => ViewerAct::Nothing,
    }
}

/// Texts are doubled character by character: a quotation mark becomes two, any other character
/// stays, and a field has one more mark at each end.
pub proof fn quotation_marks_are_doubled(s: Seq<char>, c: char)
    ensures
        c == '"' ==> doubled(s.push(c)) == doubled(s) + seq!['"', '"'],
        c != '"' ==> doubled(s.push(c)) == doubled(s) + seq![c],
        doubled(Seq::<char>::empty()).len() == 0,
        quoted(s).len() == doubled(s).len() + 2,
        quoted(s)[0] == '"',
        quoted(s).last() == '"',
        quoted(s).subrange(1, quoted(s).len() - 1) == doubled(s),
{
    assert(s.push(c).drop_last() =~= s);
    if c == '"' {
        assert(doubled(s.push(c)) =~= doubled(s) + seq!['"', '"']);
    } else {
        assert(doubled(s.push(c)) =~= doubled(s) + seq![c]);
    }
    assert(quoted(s).subrange(1, quoted(s).len() - 1) =~= doubled(s));
}

/// A line of an export is the time, the four names between quotation marks and the round trip as it
/// is shown, with commas between them and the end of a line behind.
pub proof fn lines_have_their_fields_in_order(
    ts: u64,
    id: Seq<char>,
    label: Seq<char>,
    host: Seq<char>,
    tag: Seq<char>,
    rtt: Seq<char>,
)
    ensures
        csv_view(ts, id, label, host, tag, rtt) == decimal(ts as nat) + seq![',', '"'] + doubled(id)
            + seq!['"', ',', '"'] + doubled(label) + seq!['"', ',', '"'] + doubled(host) + seq![
            '"',
            ',',
            '"',
        ] + doubled(tag) + seq!['"', ','] + rtt + seq!['\n'],
{
    reveal_strlit(",");
    reveal_strlit("\n");
    assert(csv_view(ts, id, label, host, tag, rtt) =~= decimal(ts as nat) + seq![',', '"']
        + doubled(id) + seq!['"', ',', '"'] + doubled(label) + seq!['"', ',', '"'] + doubled(host)
        + seq!['"', ',', '"'] + doubled(tag) + seq!['"', ','] + rtt + seq!['\n']);
}

/// A sample has the names of the first target with its id, and none where no target has it.
pub proof fn samples_have_the_names_of_their_target(ts: Seq<TargetView>, id: Seq<char>, i: int)
    ensures
        0 <= i < ts.len() && ts[i].id == id && (forall|j: int|
            0 <= j < i ==> (#[trigger] ts[j]).id != id) ==> names_of(ts, id).0 == ts[i].label
            && names_of(ts, id).1 == ts[i].host && names_of(ts, id).2 == ts[i].tag,
        (forall|j: int| 0 <= j < ts.len() ==> (#[trigger] ts[j]).id != id) ==> names_of(
            ts,
            id,
        ).0.len() == 0 && names_of(ts, id).1.len() == 0 && names_of(ts, id).2.len() == 0,
{
    if first_with_id(ts, id, i) {
        let k = choose|k: int| first_with_id(ts, id, k);
        assert(first_with_id(ts, id, k));
        assert(k == i);
        assert(has_id(ts, id));
    }
}

/// Exports go to the same file exactly where they begin in the same second and end in the same
/// second.
pub proof fn exports_are_named_after_their_seconds(a: u64, b: u64, c: u64, d: u64)
    ensures
        export_name(a, b) == export_name(c, d) <==> a / 1000 == c / 1000 && b / 1000 == d / 1000,
{
    let p = "speed-daemon_"@;
    let e = ".csv"@;
    let (x, y) = (decimal((a / 1000) as nat), decimal((b / 1000) as nat));
    let (u, v) = (decimal((c / 1000) as nat), decimal((d / 1000) as nat));
    let m = export_name(a, b);
    let n = export_name(c, d);
    if m == n {
        reveal_strlit("-");
        decimals_have_no_leading_zero((a / 1000) as nat);
        decimals_have_no_leading_zero((c / 1000) as nat);
        assert(m[p.len() + x.len() as int] == '-');
        assert(n[p.len() + u.len() as int] == '-');
        if x.len() < u.len() {
            assert(n[p.len() + x.len() as int] == u[x.len() as int]);
        }
        if u.len() < x.len() {
            assert(m[p.len() + u.len() as int] == x[u.len() as int]);
        }
        let start = p.len() as int;
        assert(m.subrange(start, start + x.len()) =~= x);
        assert(n.subrange(start, start + u.len()) =~= u);
        decimals_differ((a / 1000) as nat, (c / 1000) as nat);
        let from = p.len() + x.len() + 1;
        assert(m.subrange(from as int, m.len() - e.len()) =~= y);
        assert(n.subrange(from as int, n.len() - e.len()) =~= v);
        decimals_differ((b / 1000) as nat, (d / 1000) as nat);
    }
}

} // verus!
