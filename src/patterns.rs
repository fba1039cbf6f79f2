//! The structural patterns that the checks look for in the text view.
use vstd::prelude::*;
use vstd::string::StringSliceAdditionalSpecFns;
use crate::text::{occurs_at, has_sub, matches_at, find_in};

verus! {

/// ASCII whitespace: tab, line feed, vertical tab, form feed, carriage return, space.
pub open spec fn is_space(b: u8) -> bool {
    b == 9 || b == 10 || b == 11 || b == 12 || b == 13 || b == 32
}

/// The first position from `j` on that holds no whitespace (or the end).
pub open spec fn skip_space(t: Seq<u8>, j: int) -> int
    decreases t.len() - j,
{
    if 0 <= j < t.len() && is_space(t[j]) {
        skip_space(t, j + 1)
    } else {
        j
    }
}

/// The first position from `j` on that holds `b` (or the end).
pub open spec fn first_from(t: Seq<u8>, j: int, b: u8) -> int
    decreases t.len() - j,
{
    if 0 <= j < t.len() && t[j] != b {
        first_from(t, j + 1, b)
    } else {
        j
    }
}

pub open spec fn key_javascript() -> Seq<u8> {
    "/javascript".spec_bytes()
}

pub open spec fn key_js() -> Seq<u8> {
    "/js".spec_bytes()
}

pub open spec fn key_launch() -> Seq<u8> {
    "/launch".spec_bytes()
}

pub open spec fn key_f() -> Seq<u8> {
    "/f".spec_bytes()
}

pub open spec fn key_uri() -> Seq<u8> {
    "/uri".spec_bytes()
}

pub open spec fn key_openaction() -> Seq<u8> {
    "/openaction".spec_bytes()
}

pub open spec fn key_dict() -> Seq<u8> {
    "<<".spec_bytes()
}

/// The lengths of the keywords.
pub proof fn lemma_key_lengths()
    ensures
        key_javascript().len() == 11,
        key_js().len() == 3,
        key_launch().len() == 7,
        key_f().len() == 2,
        key_uri().len() == 4,
        key_openaction().len() == 11,
        key_dict().len() == 2,
{
    broadcast use vstd::string::is_ascii_spec_bytes;

    reveal_strlit("/javascript");
    reveal_strlit("/js");
    reveal_strlit("/launch");
    reveal_strlit("/f");
    reveal_strlit("/uri");
    reveal_strlit("/openaction");
    reveal_strlit("<<");
    assert(vstd::string::is_ascii("/javascript"));
    assert(vstd::string::is_ascii("/js"));
    assert(vstd::string::is_ascii("/launch"));
    assert(vstd::string::is_ascii("/f"));
    assert(vstd::string::is_ascii("/uri"));
    assert(vstd::string::is_ascii("/openaction"));
    assert(vstd::string::is_ascii("<<"));
}

/// `/javascript`, optional whitespace, `/js`, starting at `i`.
pub open spec fn js_action_at(t: Seq<u8>, i: int) -> bool {
    occurs_at(t, i, key_javascript()) && occurs_at(
        t,
        skip_space(t, i + key_javascript().len()),
        key_js(),
    )
}

/// The text holds a JavaScript action.
pub open spec fn has_js_action(t: Seq<u8>) -> bool {
    exists|i: int| js_action_at(t, i)
}

/// The two actions whose argument is a parenthesised string.
#[derive(Debug, Clone, Copy, PartialEq, Eq, Structural)]
pub enum ArgAction {
    /// `/launch`, whitespace, `/f`, whitespace, `(target)`.
    Launch,
    /// `/uri`, whitespace, `(uri)`.
    Uri,
}

/// Where the argument of an action that starts at `i` begins: just past its `(`.
pub open spec fn arg_start(t: Seq<u8>, i: int, a: ArgAction) -> Option<int> {
    let k = match a {
        ArgAction::Launch => if occurs_at(t, i, key_launch()) {
            let j = skip_space(t, i + key_launch().len());
            if occurs_at(t, j, key_f()) {
                skip_space(t, j + key_f().len())
            } else {
                -1
            }
        } else {
            -1
        },
        ArgAction::Uri => if occurs_at(t, i, key_uri()) {
            skip_space(t, i + key_uri().len())
        } else {
            -1
        },
    };
    if 0 <= k < t.len() && t[k] == 0x28 {
        Some(k + 1)
    } else {
        None
    }
}

/// The match of an action at `i`: where it ends, and its non-empty argument,
/// which runs up to the first `)`.
pub open spec fn arg_at(t: Seq<u8>, i: int, a: ArgAction) -> Option<(int, Seq<u8>)> {
    match arg_start(t, i, a) {
        Some(s) => {
            let c = first_from(t, s, 0x29);
            if s < c < t.len() {
                Some((c + 1, t.subrange(s, c)))
            } else {
                None
            }
        },
        None => None,
    }
}

/// The arguments of the successive non-overlapping matches from position `i`,
/// searched from left to right.
pub open spec fn args_from(t: Seq<u8>, i: int, a: ArgAction) -> Seq<Seq<u8>>
    decreases t.len() - i,
{
    if i < 0 || i >= t.len() {
        seq![]
    } else {
        match arg_at(t, i, a) {
            Some((e, arg)) => if i < e {
                seq![arg].add(args_from(t, e, a))
            } else {
                seq![]
            },
            None => args_from(t, i + 1, a),
        }
    }
}

/// The arguments of all matches of the action in the text.
pub open spec fn action_args(t: Seq<u8>, a: ArgAction) -> Seq<Seq<u8>> {
    args_from(t, 0, a)
}

/// `/openaction`, whitespace, and a `<<` dictionary, closed by `>>` at its
/// first `>`, whose body names `/js` or `/launch`.
pub open spec fn open_action_at(t: Seq<u8>, i: int) -> bool {
    let j = skip_space(t, i + key_openaction().len());
    let s = j + 2;
    let k = first_from(t, s, 0x3e);
    occurs_at(t, i, key_openaction()) && occurs_at(t, j, key_dict()) && k + 1 < t.len()
        && t[k + 1] == 0x3e && (has_sub(t.subrange(s, k), key_js()) || has_sub(
        t.subrange(s, k),
        key_launch(),
    ))
}

/// The text holds an OpenAction that runs a script or a launch.
pub open spec fn has_open_action(t: Seq<u8>) -> bool {
    exists|i: int| open_action_at(t, i)
}

/// A letter (either case) or a digit.
pub open spec fn is_alnum(b: u8) -> bool {
    (0x61 <= b && b <= 0x7a) || (0x41 <= b && b <= 0x5a) || (0x30 <= b && b <= 0x39)
}

/// A byte allowed inside a host name.
pub open spec fn is_host_byte(b: u8) -> bool {
    is_alnum(b) || b == 0x5f || b == 0x2e || b == 0x2d
}

/// A byte allowed in a share name: no whitespace, nor any of `\ / : * ? " < > |`.
pub open spec fn is_share_byte(b: u8) -> bool {
    !(is_space(b) || b == 0x5c || b == 0x2f || b == 0x3a || b == 0x2a || b == 0x3f || b
        == 0x22 || b == 0x3c || b == 0x3e || b == 0x7c)
}

/// A UNC path at `i` whose host has `m + 2` bytes: two backslashes, the host
/// (alphanumeric at both ends), a backslash and two share bytes.
pub open spec fn unc_with(t: Seq<u8>, i: int, m: int) -> bool {
    &&& 0 <= i
    &&& i + m + 6 < t.len()
    &&& t[i] == 0x5c && t[i + 1] == 0x5c
    &&& is_alnum(t[i + 2])
    &&& forall|q: int| i + 3 <= q < i + 3 + m ==> is_host_byte(#[trigger] t[q])
    &&& is_alnum(t[i + 3 + m])
    &&& t[i + 4 + m] == 0x5c
    &&& is_share_byte(t[i + 5 + m]) && is_share_byte(t[i + 6 + m])
}

/// A UNC path starts at `i`: its host has 3 to 100 bytes.
pub open spec fn unc_at(t: Seq<u8>, i: int) -> bool {
    exists|m: int| 1 <= m <= 98 && #[trigger] unc_with(t, i, m)
}

/// The text holds a UNC path.
pub open spec fn has_unc_path(t: Seq<u8>) -> bool {
    exists|i: int| unc_at(t, i)
}

/// The first position from `j` on that holds no whitespace.
pub fn skip_spaces(t: &[u8], j: usize) -> (r: usize)
    requires
        j <= t.len(),
    ensures
        r == skip_space(t@, j as int),
        j <= r <= t.len(),
{
    let mut k: usize = j;
    while k < t.len() && (t[k] == 9 || t[k] == 10 || t[k] == 11 || t[k] == 12 || t[k] == 13
        || t[k] == 32)
        invariant
            j <= k <= t.len(),
            skip_space(t@, k as int) == skip_space(t@, j as int),
        decreases t.len() - k,
    {
        k = k + 1;
    }
    k
}

/// The first position from `j` on that holds `b`.
pub fn find_byte(t: &[u8], j: usize, b: u8) -> (r: usize)
    requires
        j <= t.len(),
    ensures
        r == first_from(t@, j as int, b),
        j <= r <= t.len(),
{
    let mut k: usize = j;
    while k < t.len() && t[k] != b
        invariant
            j <= k <= t.len(),
            first_from(t@, k as int, b) == first_from(t@, j as int, b),
        decreases t.len() - k,
    {
        k = k + 1;
    }
    k
}

/// Tells whether a JavaScript action starts at `i`.
fn js_action_here(t: &[u8], i: usize) -> (r: bool)
    requires
        i <= t.len(),
    ensures
        r == js_action_at(t@, i as int),
{
    let key = "/javascript".as_bytes();
    if !matches_at(t, i, key) {
        return false;
    }
    let j = skip_spaces(t, i + key.len());
    matches_at(t, j, "/js".as_bytes())
}

/// Tells whether the text holds a JavaScript action.
pub fn find_js_action(t: &[u8]) -> (r: bool)
    ensures
        r == has_js_action(t@),
{
    let mut i: usize = 0;
    while i < t.len()
        invariant
            i <= t.len(),
            forall|k: int| 0 <= k < i ==> !js_action_at(t@, k),
        decreases t.len() - i,
    {
        if js_action_here(t, i) {
            return true;
        }
        i = i + 1;
    }
    proof {
        lemma_key_lengths();
    }
    assert forall|k: int| !js_action_at(t@, k) by {
        if k >= t.len() {
            assert(!occurs_at(t@, k, key_javascript()));
        }
    }
    false
}

/// The match of an action at `i`, as `arg_at` describes it.
fn arg_here(t: &[u8], i: usize, a: ArgAction) -> (r: Option<(usize, usize)>)
    requires
        i < t.len(),
    ensures
        match r {
            Some((s, e)) => i < s < e <= t.len() && arg_at(t@, i as int, a) == Some(
                (e as int, t@.subrange(s as int, e - 1)),
            ),
            None => arg_at(t@, i as int, a) is None,
        },
{
    let k: usize;
    match a {
        ArgAction::Launch => {
            let key = "/launch".as_bytes();
            if !matches_at(t, i, key) {
                return None;
            }
            let j = skip_spaces(t, i + key.len());
            let f = "/f".as_bytes();
            if !matches_at(t, j, f) {
                return None;
            }
            k = skip_spaces(t, j + f.len());
        },
        ArgAction::Uri => {
            let key = "/uri".as_bytes();
            if !matches_at(t, i, key) {
                return None;
            }
            k = skip_spaces(t, i + key.len());
        },
    }
    if k >= t.len() || t[k] != 0x28 {
        return None;
    }
    let s = k + 1;
    let c = find_byte(t, s, 0x29);
    if s < c && c < t.len() {
        Some((s, c + 1))
    } else {
        None
    }
}

/// Copies `t[s..e]`.
pub fn slice_copy(t: &[u8], s: usize, e: usize) -> (r: Vec<u8>)
    requires
        s <= e <= t.len(),
    ensures
        r@ == t@.subrange(s as int, e as int),
{
    let mut r: Vec<u8> = Vec::with_capacity(e - s);
    let mut k: usize = s;
    while k < e
        invariant
            s <= k <= e <= t.len(),
            r@ == t@.subrange(s as int, k as int),
        decreases e - k,
    {
        r.push(t[k]);
        k = k + 1;
        assert(r@ =~= t@.subrange(s as int, k as int));
    }
    r
}

/// The arguments of all matches of the action, from left to right.
pub fn find_action_args(t: &[u8], a: ArgAction) -> (r: Vec<Vec<u8>>)
    ensures
        r@.map_values(|v: Vec<u8>| v@) == action_args(t@, a),
{
    let mut r: Vec<Vec<u8>> = Vec::new();
    let mut i: usize = 0;
    while i < t.len()
        invariant
            i <= t.len(),
            r@.map_values(|v: Vec<u8>| v@) + args_from(t@, i as int, a) == action_args(t@, a),
        decreases t.len() - i,
    {
        match arg_here(t, i, a) {
            Some((s, e)) => {
                let arg = slice_copy(t, s, e - 1);
                let ghost before = r@.map_values(|v: Vec<u8>| v@);
                r.push(arg);
                assert(r@.map_values(|v: Vec<u8>| v@) =~= before.push(arg@));
                assert(before.push(arg@) + args_from(t@, e as int, a) =~= before + (seq![
                    arg@,
                ].add(args_from(t@, e as int, a))));
                i = e;
            },
            None => {
                i = i + 1;
            },
        }
    }
    assert(args_from(t@, i as int, a) =~= seq![]);
    assert(r@.map_values(|v: Vec<u8>| v@) =~= r@.map_values(|v: Vec<u8>| v@) + seq![]);
    r
}

/// Tells whether an executable OpenAction starts at `i`.
fn open_action_here(t: &[u8], i: usize) -> (r: bool)
    requires
        i <= t.len(),
    ensures
        r == open_action_at(t@, i as int),
{
    proof {
        lemma_key_lengths();
    }
    let key = "/openaction".as_bytes();
    if !matches_at(t, i, key) {
        return false;
    }
    let j = skip_spaces(t, i + key.len());
    if !matches_at(t, j, "<<".as_bytes()) {
        return false;
    }
    let s = j + 2;
    let k = find_byte(t, s, 0x3e);
    if k >= t.len() || k + 1 >= t.len() || t[k + 1] != 0x3e {
        return false;
    }
    let body = slice_copy(t, s, k);
    find_in(body.as_slice(), "/js".as_bytes()) || find_in(body.as_slice(), "/launch".as_bytes())
}

/// Tells whether the text holds an executable OpenAction.
pub fn find_open_action(t: &[u8]) -> (r: bool)
    ensures
        r == has_open_action(t@),
{
    let mut i: usize = 0;
    while i < t.len()
        invariant
            i <= t.len(),
            forall|k: int| 0 <= k < i ==> !open_action_at(t@, k),
        decreases t.len() - i,
    {
        if open_action_here(t, i) {
            return true;
        }
        i = i + 1;
    }
    proof {
        lemma_key_lengths();
    }
    assert forall|k: int| !open_action_at(t@, k) by {
        if k >= t.len() {
            assert(!occurs_at(t@, k, key_openaction()));
        }
    }
    false
}

fn alnum_byte(b: u8) -> (r: bool)
    ensures
        r == is_alnum(b),
{
    (0x61 <= b && b <= 0x7a) || (0x41 <= b && b <= 0x5a) || (0x30 <= b && b <= 0x39)
}

fn host_byte(b: u8) -> (r: bool)
    ensures
        r == is_host_byte(b),
{
    alnum_byte(b) || b == 0x5f || b == 0x2e || b == 0x2d
}

fn share_byte(b: u8) -> (r: bool)
    ensures
        r == is_share_byte(b),
{
    !(b == 9 || b == 10 || b == 11 || b == 12 || b == 13 || b == 32 || b == 0x5c || b == 0x2f
        || b == 0x3a || b == 0x2a || b == 0x3f || b == 0x22 || b == 0x3c || b == 0x3e || b
        == 0x7c)
}

/// Tells whether a UNC path starts at `i`.
fn unc_here(t: &[u8], i: usize) -> (r: bool)
    requires
        i < t.len(),
    ensures
        r == unc_at(t@, i as int),
{
    let n = t.len();
    if n - i <= 2 || t[i] != 0x5c || t[i + 1] != 0x5c || !alnum_byte(t[i + 2]) {
        assert forall|m: int| 1 <= m <= 98 implies !#[trigger] unc_with(t@, i as int, m) by {}
        return false;
    }
    let mut m: usize = 1;
    while m <= 98
        invariant
            1 <= m <= 99,
            i + 2 < n,
            n == t.len(),
            t@[i as int] == 0x5c && t@[i + 1] == 0x5c,
            is_alnum(t@[i + 2]),
            forall|q: int| i + 3 <= q < i + 2 + m ==> is_host_byte(#[trigger] t@[q]),
            forall|m2: int| 1 <= m2 < m ==> !#[trigger] unc_with(t@, i as int, m2),
        decreases 99 - m,
    {
        if m + 6 >= n - i {
            assert forall|m2: int| 1 <= m2 <= 98 implies !#[trigger] unc_with(t@, i as int, m2) by {
            }
            return false;
        }
        if !host_byte(t[i + 2 + m]) {
            assert forall|m2: int| 1 <= m2 <= 98 implies !#[trigger] unc_with(t@, i as int, m2) by {
                if m2 >= m && unc_with(t@, i as int, m2) {
                    assert(is_host_byte(t@[i + 2 + m]));
                }
            }
            return false;
        }
        if alnum_byte(t[i + 3 + m]) && t[i + 4 + m] == 0x5c && share_byte(t[i + 5 + m])
            && share_byte(t[i + 6 + m]) {
            assert(unc_with(t@, i as int, m as int));
            return true;
        }
        m = m + 1;
    }
    false
}

/// Tells whether the text holds a UNC path.
pub fn find_unc_path(t: &[u8]) -> (r: bool)
    ensures
        r == has_unc_path(t@),
{
    let mut i: usize = 0;
    while i < t.len()
        invariant
            i <= t.len(),
            forall|k: int| 0 <= k < i ==> !unc_at(t@, k),
        decreases t.len() - i,
    {
        if unc_here(t, i) {
            return true;
        }
        i = i + 1;
    }
    assert forall|k: int| !unc_at(t@, k) by {
        if k >= t.len() || k < 0 {
            assert forall|m: int| 1 <= m <= 98 implies !#[trigger] unc_with(t@, k, m) by {}
        }
    }
    false
}

} // verus!
