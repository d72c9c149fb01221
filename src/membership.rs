//! The group membership file: one member name per line, in group order.

use vstd::prelude::*;
use crate::codec::string_views;

verus! {

/// The names joined by single newlines.
pub open spec fn join_lines(names: Seq<Seq<char>>) -> Seq<char>
    decreases names.len(),
{
    if names.len() == 0 {
        seq![]
    } else if names.len() == 1 {
        names[0]
    } else {
        join_lines(names.drop_last()) + seq!['\n'] + names.last()
    }
}

/// The lines completed so far and the line being read, after reading `s`
/// from the start; empty lines are skipped.
pub open spec fn scan_lines(s: Seq<char>) -> (Seq<Seq<char>>, Seq<char>)
    decreases s.len(),
{
    if s.len() == 0 {
        (seq![], seq![])
    } else {
        let (done, current) = scan_lines(s.drop_last());
        if s.last() == '\n' {
            (
                if current.len() > 0 {
                    done.push(current)
                } else {
                    done
                },
                seq![],
            )
        } else {
            (done, current.push(s.last()))
        }
    }
}

/// The non-empty lines of `s`, in order.
pub open spec fn split_lines(s: Seq<char>) -> Seq<Seq<char>> {
    let (done, current) = scan_lines(s);
    if current.len() > 0 {
        done.push(current)
    } else {
        done
    }
}

/// A name that can stand on a line of its own.
pub open spec fn is_line_name(name: Seq<char>) -> bool {
    name.len() > 0 && !name.contains('\n')
}

/// Appending text without a newline only extends the line being read.
proof fn lemma_scan_plain_suffix(s: Seq<char>, t: Seq<char>)
    requires
        !t.contains('\n'),
    ensures
        scan_lines(s + t) == (scan_lines(s).0, scan_lines(s).1 + t),
    decreases t.len(),
{
    if t.len() == 0 {
        assert(s + t =~= s);
        assert(scan_lines(s).1 + t =~= scan_lines(s).1);
    } else {
        let t0 = t.drop_last();
        assert(!t0.contains('\n')) by {
            if t0.contains('\n') {
                let j = choose|j: int| 0 <= j < t0.len() && t0[j] == '\n';
                assert(t[j] == '\n');
            }
        }
        lemma_scan_plain_suffix(s, t0);
        assert((s + t).drop_last() =~= s + t0);
        assert((s + t).last() == t.last());
        assert(t[t.len() - 1] != '\n');
        assert((scan_lines(s).1 + t0).push(t.last()) =~= scan_lines(s).1 + t);
    }
}

/// Reading the joined names leaves all but the last completed, and the last
/// one being read.
proof fn lemma_scan_joined(names: Seq<Seq<char>>)
    requires
        names.len() > 0,
        forall|i: int| 0 <= i < names.len() ==> is_line_name(#[trigger] names[i]),
    ensures
        scan_lines(join_lines(names)) == (names.drop_last(), names.last()),
    decreases names.len(),
{
    if names.len() == 1 {
        assert(is_line_name(names[0]));
        lemma_scan_plain_suffix(seq![], names[0]);
        assert(seq![] + names[0] =~= names[0]);
        assert(names.drop_last() =~= seq![]);
        assert(scan_lines(Seq::<char>::empty()) == (Seq::<Seq<char>>::empty(), Seq::<char>::empty()));
        assert(Seq::<char>::empty() + names[0] =~= names[0]);
    } else {
        let init = names.drop_last();
        assert forall|i: int| 0 <= i < init.len() implies is_line_name(#[trigger] init[i]) by {
            assert(init[i] == names[i]);
        }
        lemma_scan_joined(init);
        let head = join_lines(init) + seq!['\n'];
        assert(head.drop_last() =~= join_lines(init));
        assert(head.last() == '\n');
        assert(is_line_name(init.last()));
        assert(init.drop_last().push(init.last()) =~= init);
        assert(scan_lines(head) == (init, Seq::<char>::empty()));
        assert(is_line_name(names.last()));
        lemma_scan_plain_suffix(head, names.last());
        assert(Seq::<char>::empty() + names.last() =~= names.last());
    }
}

/// Writing a list of names to a membership file and reading the file back
/// gives the same names in the same order, for any number of names
/// (none included), as long as each name is non-empty and holds no newline.
pub proof fn lemma_members_round_trip(names: Seq<Seq<char>>)
    requires
        forall|i: int| 0 <= i < names.len() ==> is_line_name(#[trigger] names[i]),
    ensures
        split_lines(join_lines(names)) == names,
{
    if names.len() == 0 {
        assert(scan_lines(Seq::<char>::empty()) == (Seq::<Seq<char>>::empty(), Seq::<char>::empty()));
        assert(split_lines(join_lines(names)) =~= names);
    } else {
        lemma_scan_joined(names);
        assert(is_line_name(names.last()));
        assert(names.drop_last().push(names.last()) =~= names);
    }
}

/// The text of a membership file that lists `members`.
pub fn encode_members(members: &Vec<String>) -> (r: String)
    ensures
        r@ == join_lines(string_views(members@)),
{
    let ghost names = string_views(members@);
    let mut out = String::new();
    let mut i: usize = 0;
    proof {
        reveal_strlit("\n");
        assert(names.subrange(0, 0).len() == 0);
    }
    while i < members.len()
        invariant
            0 <= i <= members@.len(),
            names == string_views(members@),
            out@ == join_lines(names.subrange(0, i as int)),
            "\n"@ == seq!['\n'],
        decreases members@.len() - i,
    {
        let ghost before = out@;
        if i > 0 {
            out.append("\n");
        }
        out.append(members[i].as_str());
        proof {
            let sub = names.subrange(0, i + 1);
            assert(sub.drop_last() =~= names.subrange(0, i as int));
            assert(sub.last() == members@[i as int]@);
            if i == 0 {
                assert(out@ =~= sub[0]);
            } else {
                assert(out@ =~= join_lines(sub.drop_last()) + seq!['\n'] + sub.last());
            }
        }
        i += 1;
    }
    assert(names.subrange(0, i as int) =~= names);
    out
}

/// The member names listed in `text`: its non-empty lines, in order.
pub fn decode_members(text: &str) -> (r: Vec<String>)
    ensures
        string_views(r@) == split_lines(text@),
{
    let ghost s = text@;
    let n = text.unicode_len();
    let mut out: Vec<String> = Vec::new();
    let mut start: usize = 0;
    let mut i: usize = 0;
    while i < n
        invariant
            n == s.len(),
            s == text@,
            0 <= start <= i <= n,
            string_views(out@) == scan_lines(s.subrange(0, i as int)).0,
            s.subrange(start as int, i as int) == scan_lines(s.subrange(0, i as int)).1,
        decreases n - i,
    {
        let c = text.get_char(i);
        let ghost pre = s.subrange(0, i as int);
        let ghost sub = s.subrange(0, i + 1);
        assert(sub.drop_last() =~= pre);
        assert(sub.last() == c);
        if c == '\n' {
            if start < i {
                let line = text.substring_char(start, i).to_string();
                let ghost before = out@;
                out.push(line);
                assert(string_views(out@) =~= string_views(before).push(line@));
            }
            start = i + 1;
            assert(s.subrange(start as int, i + 1).len() == 0);
        } else {
            assert(s.subrange(start as int, i + 1) =~= s.subrange(start as int, i as int).push(c));
        }
        i += 1;
    }
    assert(s.subrange(0, n as int) =~= s);
    if start < n {
        let line = text.substring_char(start, n).to_string();
        let ghost before = out@;
        out.push(line);
        assert(string_views(out@) =~= string_views(before).push(line@));
    }
    out
}

} // verus!

verus! {

/// Why a membership edit was refused.
#[derive(Debug)]
pub enum MembershipError {
    AlreadyMember(String),
    NotMember(String),
}

/// `names` with every occurrence of `name` left out.
pub open spec fn without_name(names: Seq<Seq<char>>, name: Seq<char>) -> Seq<Seq<char>>
    decreases names.len(),
{
    if names.len() == 0 {
        seq![]
    } else {
        let rest = without_name(names.drop_last(), name);
        if names.last() == name {
            rest
        } else {
            rest.push(names.last())
        }
    }
}

fn position_of(members: &Vec<String>, animus: &str) -> (r: Option<usize>)
    ensures
        match r {
            Some(j) => j < members@.len() && members@[j as int]@ == animus@,
            None => !string_views(members@).contains(animus@),
        },
{
    let target = animus.to_string();
    let mut j: usize = 0;
    while j < members.len()
        invariant
            0 <= j <= members@.len(),
            target@ == animus@,
            forall|k: int| 0 <= k < j ==> members@[k]@ != animus@,
        decreases members@.len() - j,
    {
        if members[j] == target {
            return Some(j);
        }
        j += 1;
    }
    proof {
        if string_views(members@).contains(animus@) {
            let k = choose|k: int|
                0 <= k < members@.len() && string_views(members@)[k] == animus@;
            assert(members@[k]@ == animus@);
        }
    }
    None
}

/// The member list with `animus` added at the end, unless it is a member
/// already.
pub fn group_add_animus(members: &Vec<String>, animus: &str) -> (r: Result<Vec<String>, MembershipError>)
    ensures
        match r {
            Ok(v) => !string_views(members@).contains(animus@) && string_views(v@)
                == string_views(members@).push(animus@),
            Err(e) => string_views(members@).contains(animus@) && (e matches MembershipError::AlreadyMember(
                n,
            ) && n@ == animus@),
        },
{
    match position_of(members, animus) {
        Some(j) => {
            assert(string_views(members@)[j as int] == animus@);
            Err(MembershipError::AlreadyMember(animus.to_string()))
        },
        None => {
            let mut v: Vec<String> = Vec::new();
            let mut i: usize = 0;
            while i < members.len()
                invariant
                    0 <= i <= members@.len(),
                    string_views(v@) == string_views(members@.subrange(0, i as int)),
                decreases members@.len() - i,
            {
                let ghost before = v@;
                v.push(members[i].clone());
                assert(string_views(v@) =~= string_views(before).push(members@[i as int]@));
                assert(string_views(members@.subrange(0, i + 1)) =~= string_views(
                    members@.subrange(0, i as int),
                ).push(members@[i as int]@));
                i += 1;
            }
            assert(members@.subrange(0, i as int) =~= members@);
            let ghost before = v@;
            v.push(animus.to_string());
            assert(string_views(v@) =~= string_views(before).push(animus@));
            Ok(v)
        },
    }
}

/// The member list without `animus`, which must be a member.
pub fn group_remove_animus(members: &Vec<String>, animus: &str) -> (r: Result<
    Vec<String>,
    MembershipError,
>)
    ensures
        match r {
            Ok(v) => string_views(members@).contains(animus@) && string_views(v@) == without_name(
                string_views(members@),
                animus@,
            ),
            Err(e) => !string_views(members@).contains(animus@) && (e matches MembershipError::NotMember(
                n,
            ) && n@ == animus@),
        },
{
    match position_of(members, animus) {
        None => Err(MembershipError::NotMember(animus.to_string())),
        Some(j) => {
            assert(string_views(members@)[j as int] == animus@);
            let ghost names = string_views(members@);
            let target = animus.to_string();
            let mut v: Vec<String> = Vec::new();
            let mut i: usize = 0;
            while i < members.len()
                invariant
                    0 <= i <= members@.len(),
                    names == string_views(members@),
                    target@ == animus@,
                    string_views(v@) == without_name(names.subrange(0, i as int), animus@),
                decreases members@.len() - i,
            {
                let sub = Ghost(names.subrange(0, i + 1));
                assert(sub@.drop_last() =~= names.subrange(0, i as int));
                assert(sub@.last() == members@[i as int]@);
                if members[i] != target {
                    let ghost before = v@;
                    v.push(members[i].clone());
                    assert(string_views(v@) =~= string_views(before).push(members@[i as int]@));
                }
                i += 1;
            }
            assert(names.subrange(0, i as int) =~= names);
            Ok(v)
        },
    }
}

} // verus!
