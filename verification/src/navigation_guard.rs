//! Keeps every window on the application itself: where a link may lead, and what becomes of the
//! others.
use vstd::prelude::*;
use vstd::string::*;

use crate::text::{
    chars_of, cut, ends_with, has_suffix, is_digit, number_value, same, slice, split, split_on,
    split_once, texts,
};

verus! {

// ---------------------------------------------------------------------------------------------
// Addresses
// ---------------------------------------------------------------------------------------------
/// A part of an IPv4 address: up to three digits without a zero before others, at most 255.
pub open spec fn octet(s: Seq<char>) -> Option<int> {
    if 1 <= s.len() <= 3 && (forall|i: int| 0 <= i < s.len() ==> is_digit(#[trigger] s[i])) && !(
    s.len() > 1 && s[0] == '0') && number_value(s) <= 255 {
        Some(number_value(s))
    } else {
        None
    }
}

/// The four numbers of an IPv4 address.
pub open spec fn v4_numbers(s: Seq<char>) -> Option<Seq<int>> {
    let p = split(s, "."@);
    if p.len() == 4 && octet(p[0]) is Some && octet(p[1]) is Some && octet(p[2]) is Some && octet(
        p[3],
    ) is Some {
        Some(seq![octet(p[0])->0, octet(p[1])->0, octet(p[2])->0, octet(p[3])->0])
    } else {
        None
    }
}

/// The value of a hexadecimal digit.
pub open spec fn hex_value(c: char) -> Option<int> {
    if '0' <= c <= '9' {
        Some(c as int - 48)
    } else if 'a' <= c <= 'f' {
        Some(c as int - 87)
    } else if 'A' <= c <= 'F' {
        Some(c as int - 55)
    } else {
        None
    }
}

/// The number of hexadecimal digits, where all are.
pub open spec fn hex_number(s: Seq<char>) -> Option<int>
    decreases s.len(),
{
    if s.len() == 0 {
        Some(0)
    } else {
        match (hex_number(s.drop_last()), hex_value(s.last())) {
            (Some(a), Some(b)) => Some(a * 16 + b),
            _ => None,
        }
    }
}

/// A group of an IPv6 address: one to four hexadecimal digits.
pub open spec fn v6_group(s: Seq<char>) -> Option<int> {
    if 1 <= s.len() <= 4 {
        hex_number(s)
    } else {
        None
    }
}

/// The groups that texts stand for. The last may be an IPv4 address, which stands for two.
pub open spec fn v6_groups_of(p: Seq<Seq<char>>, i: int) -> Option<Seq<int>>
    decreases p.len() - i,
{
    if i < 0 || i >= p.len() {
        Some(Seq::empty())
    } else if i == p.len() - 1 && v4_numbers(p[i]) is Some {
        let n = v4_numbers(p[i])->0;
        Some(seq![n[0] * 256 + n[1], n[2] * 256 + n[3]])
    } else {
        match (v6_group(p[i]), v6_groups_of(p, i + 1)) {
            (Some(g), Some(rest)) => Some(seq![g] + rest),
            _ => None,
        }
    }
}

/// The groups of a side of an IPv6 address, none where it is empty.
pub open spec fn v6_side(s: Seq<char>) -> Option<Seq<int>> {
    if s.len() == 0 {
        Some(Seq::empty())
    } else {
        v6_groups_of(split(s, ":"@), 0)
    }
}

/// Whether a side of an IPv6 address ends in an IPv4 address.
pub open spec fn ends_in_v4(s: Seq<char>) -> bool {
    v4_numbers(split(s, ":"@).last()) is Some
}

/// So many zeros.
pub open spec fn zeros(n: nat) -> Seq<int> {
    Seq::new(n, |i: int| 0int)
}

/// The eight groups of an IPv6 address. Two colons, once at most, stand for as many groups of zeros
/// as are missing, and for one at least.
pub open spec fn v6_groups(s: Seq<char>) -> Option<Seq<int>> {
    match split_once(s, "::"@) {
        None => match v6_side(s) {
            Some(g) => if g.len() == 8 {
                Some(g)
            } else {
                None
            },
            None => None,
        },
        Some((a, b)) => match (v6_side(a), v6_side(b)) {
            (Some(g), Some(h)) => if g.len() + h.len() <= 7 && !(a.len() > 0 && ends_in_v4(a)) {
                Some(g + zeros((8 - g.len() - h.len()) as nat) + h)
            } else {
                None
            },
            _ => None,
        },
    }
}

/// The groups of the IPv6 address of the machine itself.
pub open spec fn v6_loopback() -> Seq<int> {
    seq![0, 0, 0, 0, 0, 0, 0, 1]
}

/// Whether a text is an address of the machine itself: one of IPv4 that begins with 127, or the last
/// but zero of IPv6.
pub open spec fn is_loopback(s: Seq<char>) -> bool {
    match v4_numbers(s) {
        Some(n) => n[0] == 127,
        None => v6_groups(s) == Some(v6_loopback()),
    }
}

/// A text without the brackets around an address.
pub open spec fn without_brackets(s: Seq<char>) -> Seq<char> {
    crate::text::strip_end(strip_start(s, '['), "]"@)
}

/// A text without all the characters of a kind at its beginning.
pub open spec fn strip_start(s: Seq<char>, c: char) -> Seq<char>
    decreases s.len(),
{
    if s.len() > 0 && s[0] == c {
        strip_start(s.skip(1), c)
    } else {
        s
    }
}

/// Whether a host is the machine itself.
pub open spec fn local_host(host: Seq<char>) -> bool {
    let h = without_brackets(host);
    h == "localhost"@ || ends_with(h, ".localhost"@) || is_loopback(h)
}

fn octet_of(s: &str) -> (r: Option<u64>)
    ensures
        match r {
            Some(v) => octet(s@) == Some(v as int) && v <= 255,
            None => octet(s@) is None,
        },
{
    let a = chars_of(s);
    if a.len() == 0 || a.len() > 3 || (a.len() > 1 && a[0] == '0') {
        return None;
    }
    let mut v: u64 = 0;
    let mut i: usize = 0;
    assert(a@.take(0) =~= Seq::empty());
    while i < a.len()
        invariant
            i <= a.len(),
            a.len() <= 3,
            a@ == s@,
            v == number_value(s@.take(i as int)),
            i == 0 ==> v == 0,
            i == 1 ==> v <= 9,
            i == 2 ==> v <= 99,
            i == 3 ==> v <= 999,
            forall|k: int| 0 <= k < i ==> is_digit(#[trigger] s@[k]),
        decreases a.len() - i,
    {
        if !crate::text::digit_char(a[i]) {
            assert(!is_digit(s@[i as int]));
            return None;
        }
        proof {
            assert(s@.take(i + 1).drop_last() =~= s@.take(i as int));
            assert(s@.take(i + 1).last() == s@[i as int]);
        }
        v = v * 10 + (a[i] as u64 - 48);
        i += 1;
    }
    assert(s@.take(a.len() as int) =~= s@);
    if v <= 255 {
        Some(v)
    } else {
        None
    }
}

fn v4_of(s: &str) -> (r: Option<(u64, u64, u64, u64)>)
    ensures
        match r {
            Some(n) => v4_numbers(s@) == Some(seq![n.0 as int, n.1 as int, n.2 as int, n.3 as int])
                && n.0 <= 255 && n.1 <= 255 && n.2 <= 255 && n.3 <= 255,
            None => v4_numbers(s@) is None,
        },
{
    proof {
        reveal_strlit(".");
    }
    let p = split_on(s, ".");
    assert(texts(p@).len() == p@.len());
    if p.len() != 4 {
        return None;
    }
    assert(texts(p@)[0] == p@[0]@ && texts(p@)[1] == p@[1]@ && texts(p@)[2] == p@[2]@ && texts(
        p@,
    )[3] == p@[3]@);
    match (
        octet_of(p[0].as_str()),
        octet_of(p[1].as_str()),
        octet_of(p[2].as_str()),
        octet_of(p[3].as_str()),
    ) {
        (Some(a), Some(b), Some(c), Some(d)) => Some((a, b, c, d)),
        _ => None,
    }
}

fn hex_digit_of(c: char) -> (r: Option<u64>)
    ensures
        match r {
            Some(v) => hex_value(c) == Some(v as int) && v < 16,
            None => hex_value(c) is None,
        },
{
    if '0' <= c && c <= '9' {
        Some(c as u64 - 48)
    } else if 'a' <= c && c <= 'f' {
        Some(c as u64 - 87)
    } else if 'A' <= c && c <= 'F' {
        Some(c as u64 - 55)
    } else {
        None
    }
}

proof fn lemma_hex_none(s: Seq<char>, k: int)
    requires
        0 <= k <= s.len(),
        hex_number(s.take(k)) is None,
    ensures
        hex_number(s) is None,
    decreases s.len() - k,
{
    if k == s.len() {
        assert(s.take(k) =~= s);
    } else {
        assert(s.take(k + 1).drop_last() =~= s.take(k));
        lemma_hex_none(s, k + 1);
    }
}

fn group_of(s: &str) -> (r: Option<u64>)
    ensures
        match r {
            Some(v) => v6_group(s@) == Some(v as int) && v <= 65535,
            None => v6_group(s@) is None,
        },
{
    let a = chars_of(s);
    if a.len() == 0 || a.len() > 4 {
        return None;
    }
    let mut v: u64 = 0;
    let mut i: usize = 0;
    assert(a@.take(0) =~= Seq::empty());
    while i < a.len()
        invariant
            i <= a.len(),
            a.len() <= 4,
            a@ == s@,
            1 <= s@.len() <= 4,
            hex_number(s@.take(i as int)) == Some(v as int),
            i == 0 ==> v == 0,
            i == 1 ==> v <= 15,
            i == 2 ==> v <= 255,
            i == 3 ==> v <= 4095,
            i == 4 ==> v <= 65535,
        decreases a.len() - i,
    {
        proof {
            assert(s@.take(i + 1).drop_last() =~= s@.take(i as int));
            assert(s@.take(i + 1).last() == s@[i as int]);
        }
        match hex_digit_of(a[i]) {
            Some(d) => {
                v = v * 16 + d;
            },
            None => {
                proof {
                    lemma_hex_none(s@, i + 1);
                }
                return None;
            },
        }
        i += 1;
    }
    assert(s@.take(a.len() as int) =~= s@);
    Some(v)
}

/// The numbers of a list.
pub open spec fn numbers(v: Seq<u64>) -> Seq<int> {
    Seq::new(v.len(), |i: int| v[i] as int)
}

fn groups_of(p: &Vec<String>) -> (r: Option<Vec<u64>>)
    ensures
        match r {
            Some(v) => v6_groups_of(texts(p@), 0) == Some(numbers(v@)),
            None => v6_groups_of(texts(p@), 0) is None,
        },
{
    let ghost all = texts(p@);
    let n: usize = p.len();
    let mut back: Vec<u64> = Vec::new();
    let mut i: usize = n;
    assert(numbers(back@) =~= Seq::empty());
    while i > 0
        invariant
            i <= n,
            n == p.len(),
            all == texts(p@),
            all.len() == n,
            v6_groups_of(all, i as int) == Some(numbers(back@)),
        decreases i,
    {
        let ghost rest = numbers(back@);
        assert(all[i - 1] == p@[i - 1]@);
        let v4 = if i == n {
            v4_of(p[i - 1].as_str())
        } else {
            None
        };
        match v4 {
            Some((a, b, c, d)) => {
                back.insert(0, c * 256 + d);
                back.insert(0, a * 256 + b);
                assert(rest =~= Seq::empty());
                assert(numbers(back@) =~= seq![
                    a as int * 256 + b as int,
                    c as int * 256 + d as int,
                ]);
            },
            None => match group_of(p[i - 1].as_str()) {
                Some(g) => {
                    back.insert(0, g);
                    assert(numbers(back@) =~= seq![g as int] + rest);
                },
                None => {
                    proof {
                        lemma_groups_none(all, i - 1);
                    }
                    return None;
                },
            },
        }
        i -= 1;
    }
    Some(back)
}

proof fn lemma_groups_none(p: Seq<Seq<char>>, k: int)
    requires
        0 <= k < p.len(),
        v6_groups_of(p, k) is None,
    ensures
        v6_groups_of(p, 0) is None,
    decreases k,
{
    if k > 0 {
        lemma_groups_none(p, k - 1);
    }
}

fn side_of(s: &str) -> (r: Option<Vec<u64>>)
    ensures
        match r {
            Some(v) => v6_side(s@) == Some(numbers(v@)),
            None => v6_side(s@) is None,
        },
{
    if s.is_empty() {
        let v: Vec<u64> = Vec::new();
        assert(numbers(v@) =~= Seq::empty());
        return Some(v);
    }
    proof {
        reveal_strlit(":");
    }
    groups_of(&split_on(s, ":"))
}

fn side_ends_in_v4(s: &str) -> (r: bool)
    ensures
        r == ends_in_v4(s@),
{
    proof {
        reveal_strlit(":");
    }
    let p = split_on(s, ":");
    assert(texts(p@).len() == p@.len());
    assert(texts(p@).last() == p@[p@.len() - 1]@);
    v4_of(p[p.len() - 1].as_str()).is_some()
}

fn all_zero_but_one(g: &Vec<u64>, h: &Vec<u64>) -> (r: bool)
    requires
        g@.len() + h@.len() <= 8,
    ensures
        r == (numbers(g@) + zeros((8 - g@.len() - h@.len()) as nat) + numbers(h@)
            == v6_loopback()),
{
    let ghost mid = zeros((8 - g@.len() - h@.len()) as nat);
    let ghost all = numbers(g@) + mid + numbers(h@);
    let gn: usize = g.len();
    let hn: usize = h.len();
    let mut i: usize = 0;
    while i < 8
        invariant
            i <= 8,
            gn == g@.len(),
            hn == h@.len(),
            gn + hn <= 8,
            mid == zeros((8 - g@.len() - h@.len()) as nat),
            all == numbers(g@) + mid + numbers(h@),
            all.len() == 8,
            forall|k: int| 0 <= k < i ==> #[trigger] all[k] == v6_loopback()[k],
        decreases 8 - i,
    {
        let x: u64 = if i < gn {
            g[i]
        } else if i < 8 - hn {
            0
        } else {
            h[i - (8 - hn)]
        };
        let want: u64 = if i == 7 {
            1
        } else {
            0
        };
        assert(all[i as int] == x);
        assert(v6_loopback()[i as int] == want);
        if x != want {
            return false;
        }
        i += 1;
    }
    assert(all =~= v6_loopback());
    true
}

/// Tells whether a text is an address of the machine itself.
pub fn loopback_address(s: &str) -> (r: bool)
    ensures
        r == is_loopback(s@),
{
    if let Some((a, _, _, _)) = v4_of(s) {
        return a == 127;
    }
    proof {
        reveal_strlit("::");
    }
    match cut(s, "::") {
        None => match side_of(s) {
            Some(g) => {
                let none: Vec<u64> = Vec::new();
                proof {
                    assert(numbers(none@) =~= Seq::empty());
                    assert(numbers(g@) + zeros(0) + numbers(none@) =~= numbers(
                        g@,
                    ));
                }
                g.len() == 8 && all_zero_but_one(&g, &none)
            },
            None => false,
        },
        Some((a, b)) => match (side_of(a.as_str()), side_of(b.as_str())) {
            (Some(g), Some(h)) => {
                if g.len() > 7 || h.len() > 7 - g.len() || (!a.as_str().is_empty()
                    && side_ends_in_v4(a.as_str())) {
                    return false;
                }
                all_zero_but_one(&g, &h)
            },
            _ => false,
        },
    }
}

fn without_opening(s: &str) -> (r: String)
    ensures
        r@ == strip_start(s@, '['),
{
    let a = chars_of(s);
    let mut i: usize = 0;
    assert(a@.skip(0) =~= s@);
    while i < a.len() && a[i] == '['
        invariant
            i <= a.len(),
            strip_start(s@, '[') == strip_start(a@.skip(i as int), '['),
        decreases a.len() - i,
    {
        assert(a@.skip(i as int).skip(1) =~= a@.skip(i + 1));
        i += 1;
    }
    assert(a@.subrange(i as int, a.len() as int) =~= a@.skip(i as int));
    slice(&a, i, a.len())
}

/// Tells whether a host is the machine itself: the application is served from there.
pub fn is_local_host(host: &str) -> (r: bool)
    ensures
        r == local_host(host@),
{
    proof {
        reveal_strlit("]");
    }
    let h = crate::text::stripped_end(without_opening(host).as_str(), "]");
    same(h.as_str(), "localhost") || has_suffix(h.as_str(), ".localhost") || loopback_address(
        h.as_str(),
    )
}

// ---------------------------------------------------------------------------------------------
// Links
// ---------------------------------------------------------------------------------------------
/// What is looked at in an address that a window is to go to.
pub struct UrlParts {
    pub scheme: String,
    pub host: Option<String>,
}

/// Whether an address is the application itself, or one that a window makes for itself.
pub open spec fn app_url(url: UrlParts) -> bool {
    let s = url.scheme@;
    s == "tauri"@ || s == "about"@ || s == "data"@ || s == "blob"@ || ((s == "http"@ || s
        == "https"@) && url.host is Some && local_host(url.host->0@))
}

/// Whether another application can be asked to open an address.
pub open spec fn external_url(url: UrlParts) -> bool {
    let s = url.scheme@;
    s == "http"@ || s == "https"@ || s == "mailto"@ || s == "tel"@
}

/// Tells whether an address is the application itself.
pub fn is_app_url(url: &UrlParts) -> (r: bool)
    ensures
        r == app_url(*url),
{
    let s = url.scheme.as_str();
    if same(s, "tauri") || same(s, "about") || same(s, "data") || same(s, "blob") {
        return true;
    }
    if same(s, "http") || same(s, "https") {
        return match &url.host {
            Some(h) => is_local_host(h.as_str()),
            None => false,
        };
    }
    false
}

/// Tells whether another application can be asked to open an address.
pub fn is_external(url: &UrlParts) -> (r: bool)
    ensures
        r == external_url(*url),
{
    let s = url.scheme.as_str();
    same(s, "http") || same(s, "https") || same(s, "mailto") || same(s, "tel")
}

/// Where a window is.
#[derive(Clone, Copy, PartialEq, Eq, Structural)]
pub enum CurrentPage {
    /// It has loaded nothing, or where it is cannot be told.
    Blank,
    /// It is at the same origin as the address that it is to go to.
    SameOrigin,
    /// It is somewhere else.
    Elsewhere,
}

/// What becomes of a navigation.
#[derive(Clone, Copy, PartialEq, Eq, Structural)]
pub enum Navigation {
    /// The window goes there.
    Allow,
    /// The window stays, and another application opens the address.
    HandOff,
    /// The window stays.
    Refuse,
}

/// What becomes of a navigation: a window leaves the application only where it shows nothing yet. An
/// address outside goes to the browser where that can open it.
pub fn decide(url: &UrlParts, current: CurrentPage) -> (r: Navigation)
    ensures
        r == (if app_url(*url) || current != CurrentPage::Elsewhere {
            Navigation::Allow
        } else if external_url(*url) {
            Navigation::HandOff
        } else {
            Navigation::Refuse
        }),
{
    if is_app_url(url) {
        return Navigation::Allow;
    }
    match current {
        CurrentPage::Blank => Navigation::Allow,
        CurrentPage::SameOrigin => Navigation::Allow,
        CurrentPage::Elsewhere => if is_external(url) {
            Navigation::HandOff
        } else {
            Navigation::Refuse
        },
    }
}

} // verus!
