use vstd::prelude::*;

verus! {

/// Directory that holds the data files of `user`: `data/<user>`.
pub fn user_data_path(user: &str) -> (r: String)
    ensures
        r@ == "data/"@ + user@,
{
    let mut path = String::from_str("data/");
    path.append(user);
    path
}

/// An ASCII letter.
pub open spec fn is_ascii_letter(c: char) -> bool {
    ('a' <= c && c <= 'z') || ('A' <= c && c <= 'Z')
}

/// An ASCII decimal digit.
pub open spec fn is_ascii_digit(c: char) -> bool {
    '0' <= c && c <= '9'
}

/// A user name: an ASCII letter, then ASCII letters, digits and underscores.
pub open spec fn valid_username(s: Seq<char>) -> bool {
    &&& s.len() > 0
    &&& is_ascii_letter(s[0])
    &&& forall|i: int|
        0 <= i < s.len() ==> is_ascii_letter(#[trigger] s[i]) || is_ascii_digit(s[i]) || s[i]
            == '_'
}

/// Whether `username` may name a user.
pub fn is_valid_username(username: &str) -> (r: bool)
    ensures
        r == valid_username(username@),
{
    let n = username.unicode_len();
    if n == 0 {
        return false;
    }
    let first = username.get_char(0);
    if !(('a' <= first && first <= 'z') || ('A' <= first && first <= 'Z')) {
        return false;
    }
    let mut i: usize = 0;
    while i < n
        invariant
            n == username@.len(),
            i <= n,
            forall|k: int|
                0 <= k < i ==> is_ascii_letter(#[trigger] username@[k]) || is_ascii_digit(
                    username@[k],
                ) || username@[k] == '_',
        decreases n - i,
    {
        let c = username.get_char(i);
        if !(('a' <= c && c <= 'z') || ('A' <= c && c <= 'Z') || ('0' <= c && c <= '9') || c
            == '_') {
            return false;
        }
        i = i + 1;
    }
    true
}

/// `s` with every character but the first and the last replaced by `-`, when
/// it has more than two.
pub open spec fn masked(s: Seq<char>) -> Seq<char> {
    Seq::new(
        s.len(),
        |i: int|
            if s.len() > 2 && 0 < i < s.len() - 1 {
                '-'
            } else {
                s[i]
            },
    )
}

/// Hides the middle of a name for display, keeping its first and last
/// characters.
pub fn mask_middle_chars(s: &str) -> (r: String)
    ensures
        r@ == masked(s@),
{
    let n = s.unicode_len();
    if n <= 2 {
        let r = s.to_owned();
        assert(r@ =~= masked(s@));
        return r;
    }
    let mut r = String::from_str(s.substring_char(0, 1));
    let mut i: usize = 1;
    proof {
        reveal_strlit("-");
    }
    while i < n - 1
        invariant
            n == s@.len(),
            n > 2,
            1 <= i <= n - 1,
            r@ == masked(s@).take(i as int),
        decreases n - i,
    {
        r.append("-");
        proof {
            reveal_strlit("-");
        }
        assert(r@ =~= masked(s@).take(i + 1));
        i = i + 1;
    }
    r.append(s.substring_char(n - 1, n));
    assert(r@ =~= masked(s@));
    r
}

} // verus!
