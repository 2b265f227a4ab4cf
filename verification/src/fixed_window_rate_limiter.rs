//! A single-process fixed-window rate limiter.
//!
//! Each user gets at most `capacity` requests per calendar minute of the Unix
//! clock. The limiter keeps, per user and per minute window, the number of
//! requests it has admitted, and refuses a request once an existing window's
//! count has reached the capacity.

use vstd::prelude::*;

verus! {

struct WindowCount {
    minute: u64,
    count: u64,
}

struct UserHistory {
    user: String,
    windows: Vec<WindowCount>,
}

/// The rate limiter: a capacity and the admitted-request counts, kept per
/// user and per minute window.
pub struct FixedWindowRateLimiter {
    capacity: u64,
    requests: Vec<UserHistory>,
}

/// The count of the first window with this minute, if one exists.
spec fn window_count_in(windows: Seq<WindowCount>, minute: int) -> Option<u64>
    decreases windows.len(),
{
    if windows.len() == 0 {
        None
    } else if windows[0].minute as int == minute {
        Some(windows[0].count)
    } else {
        window_count_in(windows.drop_first(), minute)
    }
}

/// The windows of the first entry for this user, if one exists.
spec fn user_windows(requests: Seq<UserHistory>, user: Seq<char>) -> Option<Seq<WindowCount>>
    decreases requests.len(),
{
    if requests.len() == 0 {
        None
    } else if requests[0].user@ == user {
        Some(requests[0].windows@)
    } else {
        user_windows(requests.drop_first(), user)
    }
}

/// The greeting returned for every admitted request.
pub open spec fn greeting(user: Seq<char>) -> Seq<char> {
    "Hello "@ + user
}

/// The decimal digit characters of a number, most significant first.
pub open spec fn decimal_digits(n: nat) -> Seq<char>
    decreases n,
{
    if n < 10 {
        seq![digit_char(n)]
    } else {
        decimal_digits(n / 10).push(digit_char(n % 10))
    }
}

/// The character of one decimal digit.
pub open spec fn digit_char(d: nat) -> char {
    if d == 0 {
        '0'
    } else if d == 1 {
        '1'
    } else if d == 2 {
        '2'
    } else if d == 3 {
        '3'
    } else if d == 4 {
        '4'
    } else if d == 5 {
        '5'
    } else if d == 6 {
        '6'
    } else if d == 7 {
        '7'
    } else if d == 8 {
        '8'
    } else {
        '9'
    }
}

/// The notice returned for every refused request.
pub open spec fn refusal(user: Seq<char>, capacity: nat, count: nat) -> Seq<char> {
    "User "@ + user + " has reached rate limit "@ + decimal_digits(capacity) + " with "@
        + decimal_digits(count) + " requests"@
}

/// The minute window that a non-negative Unix timestamp falls in.
pub open spec fn minute_of(timestamp_seconds: i64) -> int {
    timestamp_seconds as int / 60
}

impl FixedWindowRateLimiter {
    pub closed spec fn spec_capacity(&self) -> u64 {
        self.capacity
    }

    /// The number of requests admitted so far for `user` within the minute
    /// window `minute`; `None` when that window has never been touched.
    pub closed spec fn spec_count(&self, user: Seq<char>, minute: int) -> Option<u64> {
        match user_windows(self.requests@, user) {
            None => None,
            Some(windows) => window_count_in(windows, minute),
        }
    }

    /// Creates a limiter admitting `capacity` requests per user per minute,
    /// with no request recorded yet.
    pub fn new(capacity: u64) -> (limiter: Self)
        ensures
            limiter.spec_capacity() == capacity,
            forall|user: Seq<char>, minute: int| limiter.spec_count(user, minute) is None,
    {
        let limiter = Self { capacity, requests: Vec::new() };
        proof {
            assert forall|user: Seq<char>, minute: int|
                limiter.spec_count(user, minute) is None by {
                assert(user_windows(limiter.requests@, user) is None);
            }
        }
        limiter
    }

    /// Admits or refuses one request by `key` at the given time (a
    /// non-negative Unix timestamp in seconds).
    ///
    /// The request is refused exactly when the window already holds at least
    /// `capacity` admitted requests; an admitted request raises its window's
    /// count (a fresh window starts at one) and returns the greeting. No
    /// other user's or window's count changes either way.
    pub fn allow(&mut self, key: &str, timestamp_seconds: i64) -> (r: Result<String, String>)
        requires
            0 <= timestamp_seconds,
        ensures
            final(self).spec_capacity() == old(self).spec_capacity(),
            match old(self).spec_count(key@, minute_of(timestamp_seconds)) {
                Some(count) => {
                    if count >= old(self).spec_capacity() {
                        (r matches Err(e) && e@ == refusal(
                            key@,
                            old(self).spec_capacity() as nat,
                            count as nat,
                        )) && *final(self) == *old(self)
                    } else {
                        (r matches Ok(s) && s@ == greeting(key@)) && final(self).spec_count(
                            key@,
                            minute_of(timestamp_seconds),
                        ) == Some((count + 1) as u64)
                    }
                },
                None => (r matches Ok(s) && s@ == greeting(key@)) && final(self).spec_count(
                    key@,
                    minute_of(timestamp_seconds),
                ) == Some(1u64),
            },
            forall|user: Seq<char>, minute: int|
                !(user == key@ && minute == minute_of(timestamp_seconds))
                    ==> final(self).spec_count(user, minute) == old(self).spec_count(
                    user,
                    minute,
                ),
    {
        let minute: u64 = (timestamp_seconds as u64) / 60;
        let ghost target_minute = minute_of(timestamp_seconds);
        proof {
            assert(minute as int == target_minute);
        }
        match find_user(&self.requests, key) {
            Some(ui) => {
                proof {
                    lemma_user_lookup_found(self.requests@, key@, ui as int);
                }
                match find_window(&self.requests[ui].windows, minute) {
                    Some(wi) => {
                        proof {
                            lemma_window_lookup_found(
                                self.requests@[ui as int].windows@,
                                minute as int,
                                wi as int,
                            );
                        }
                        let count = self.requests[ui].windows[wi].count;
                        if count >= self.capacity {
                            Err(too_many_requests_message(key, self.capacity, count))
                        } else {
                            let ghost requests0 = self.requests@;
                            let user_entry = &mut self.requests[ui];
                            let ghost windows0 = user_entry.windows@;
                            let window = &mut user_entry.windows[wi];
                            window.count = count + 1;
                            proof {
                                let requests1 = self.requests@;
                                let windows1 = requests1[ui as int].windows@;
                                assert(windows1 == windows0.update(
                                    wi as int,
                                    WindowCount { minute, count: (count + 1) as u64 },
                                ));
                                lemma_window_lookup_found(windows1, minute as int, wi as int);
                                lemma_user_lookup_found(requests1, key@, ui as int);
                                assert forall|user: Seq<char>, m: int|
                                    !(user == key@ && m == target_minute) implies self.spec_count(
                                    user,
                                    m,
                                ) == old(self).spec_count(user, m) by {
                                    if user == key@ {
                                        lemma_window_frame(windows1, windows0, m);
                                    } else {
                                        lemma_user_frame(requests1, requests0, user);
                                    }
                                }
                            }
                            Ok(hello_message(key))
                        }
                    },
                    None => {
                        proof {
                            lemma_window_lookup_missing(
                                self.requests@[ui as int].windows@,
                                minute as int,
                            );
                        }
                        let ghost requests0 = self.requests@;
                        let user_entry = &mut self.requests[ui];
                        let ghost windows0 = user_entry.windows@;
                        user_entry.windows.push(WindowCount { minute, count: 1 });
                        proof {
                            let requests1 = self.requests@;
                            let windows1 = requests1[ui as int].windows@;
                            let entry = WindowCount { minute, count: 1 };
                            assert(windows1 == windows0.push(entry));
                            lemma_window_push_new(windows0, entry);
                            lemma_user_lookup_found(requests1, key@, ui as int);
                            assert forall|user: Seq<char>, m: int|
                                !(user == key@ && m == target_minute) implies self.spec_count(
                                user,
                                m,
                            ) == old(self).spec_count(user, m) by {
                                if user == key@ {
                                    lemma_window_push_other(windows0, entry, m);
                                } else {
                                    lemma_user_frame(requests1, requests0, user);
                                }
                            }
                        }
                        Ok(hello_message(key))
                    },
                }
            },
            None => {
                proof {
                    lemma_user_lookup_missing(self.requests@, key@);
                }
                let ghost requests0 = self.requests@;
                let mut windows: Vec<WindowCount> = Vec::new();
                windows.push(WindowCount { minute, count: 1 });
                let entry = UserHistory { user: String::from_str(key), windows };
                self.requests.push(entry);
                proof {
                    let requests1 = self.requests@;
                    let pushed = requests1[requests0.len() as int];
                    assert(requests1 == requests0.push(pushed));
                    assert(pushed.user@ == key@);
                    lemma_user_lookup_found(requests1, key@, requests0.len() as int);
                    assert(pushed.windows@[0] == WindowCount { minute, count: 1 });
                    assert(window_count_in(pushed.windows@, minute as int) == Some(1u64));
                    assert forall|user: Seq<char>, m: int|
                        !(user == key@ && m == target_minute) implies self.spec_count(user, m)
                        == old(self).spec_count(user, m) by {
                        if user == key@ {
                            assert(pushed.windows@.drop_first() =~= Seq::<WindowCount>::empty());
                            assert(window_count_in(pushed.windows@.drop_first(), m) is None);
                            assert(window_count_in(pushed.windows@, m) is None);
                        } else {
                            lemma_user_push_other(requests0, pushed, user);
                        }
                    }
                }
                Ok(hello_message(key))
            },
        }
    }
}

/// The greeting, `Hello ` followed by the user's name.
fn hello_message(key: &str) -> (r: String)
    ensures
        r@ == greeting(key@),
{
    String::from_str("Hello ").concat(key)
}

/// The decimal rendering of a number.
fn decimal_string(n: u64) -> (r: String)
    ensures
        r@ == decimal_digits(n as nat),
{
    let mut tail: Vec<char> = Vec::new();
    let mut m: u64 = n;
    proof {
        assert(decimal_digits(n as nat) =~= decimal_digits(m as nat) + tail@.reverse());
    }
    while m >= 10
        invariant
            decimal_digits(n as nat) == decimal_digits(m as nat) + tail@.reverse(),
        decreases m,
    {
        let d = m % 10;
        tail.push(digit_char_exec(d));
        let ghost tail0 = tail@.drop_last();
        m = m / 10;
        proof {
            assert(tail@.reverse() =~= seq![digit_char(d as nat)] + tail0.reverse());
            assert(decimal_digits(n as nat) =~= decimal_digits(m as nat) + tail@.reverse());
        }
    }
    let mut r = String::new();
    r.push(digit_char_exec(m));
    proof {
        assert(r@ =~= decimal_digits(m as nat));
        assert(tail@.subrange(tail@.len() as int, tail@.len() as int).reverse()
            =~= Seq::<char>::empty());
        assert(r@ =~= decimal_digits(m as nat) + tail@.subrange(
            tail@.len() as int,
            tail@.len() as int,
        ).reverse());
    }
    let mut k: usize = tail.len();
    while k > 0
        invariant
            k <= tail@.len(),
            decimal_digits(n as nat) == decimal_digits(m as nat) + tail@.reverse(),
            r@ == decimal_digits(m as nat) + tail@.subrange(k as int, tail@.len() as int).reverse(),
        decreases k,
    {
        k -= 1;
        r.push(tail[k]);
        proof {
            assert(tail@.subrange(k as int, tail@.len() as int).reverse() =~= tail@.subrange(
                k as int + 1,
                tail@.len() as int,
            ).reverse().push(tail@[k as int]));
            assert(r@ =~= decimal_digits(m as nat) + tail@.subrange(
                k as int,
                tail@.len() as int,
            ).reverse());
        }
    }
    proof {
        assert(tail@.subrange(0, tail@.len() as int) =~= tail@);
        assert(r@ =~= decimal_digits(n as nat));
    }
    r
}

fn digit_char_exec(d: u64) -> (c: char)
    requires
        d < 10,
    ensures
        c == digit_char(d as nat),
{
    if d == 0 {
        '0'
    } else if d == 1 {
        '1'
    } else if d == 2 {
        '2'
    } else if d == 3 {
        '3'
    } else if d == 4 {
        '4'
    } else if d == 5 {
        '5'
    } else if d == 6 {
        '6'
    } else if d == 7 {
        '7'
    } else if d == 8 {
        '8'
    } else {
        '9'
    }
}

/// The refusal notice for a user that has exhausted a window.
fn too_many_requests_message(key: &str, capacity: u64, count: u64) -> (r: String)
    ensures
        r@ == refusal(key@, capacity as nat, count as nat),
{
    let r = String::from_str("User ").concat(key).concat(" has reached rate limit ").concat(
        decimal_string(capacity).as_str(),
    ).concat(" with ").concat(decimal_string(count).as_str()).concat(" requests");
    proof {
        assert(r@ =~= refusal(key@, capacity as nat, count as nat));
    }
    r
}

/// The index of the first entry for this user.
fn find_user(requests: &Vec<UserHistory>, user: &str) -> (r: Option<usize>)
    ensures
        match r {
            Some(idx) => idx < requests@.len() && requests@[idx as int].user@ == user@ && (
            forall|j: int| 0 <= j < idx ==> requests@[j].user@ != user@),
            None => forall|j: int| 0 <= j < requests@.len() ==> requests@[j].user@ != user@,
        },
{
    let mut i: usize = 0;
    while i < requests.len()
        invariant
            i <= requests@.len(),
            forall|j: int| 0 <= j < i ==> requests@[j].user@ != user@,
        decreases requests@.len() - i,
    {
        if str_eq(requests[i].user.as_str(), user) {
            return Some(i);
        }
        i += 1;
    }
    None
}

/// The index of the first window with this minute.
fn find_window(windows: &Vec<WindowCount>, minute: u64) -> (r: Option<usize>)
    ensures
        match r {
            Some(idx) => idx < windows@.len() && windows@[idx as int].minute == minute && (
            forall|j: int| 0 <= j < idx ==> windows@[j].minute != minute),
            None => forall|j: int| 0 <= j < windows@.len() ==> windows@[j].minute != minute,
        },
{
    let mut i: usize = 0;
    while i < windows.len()
        invariant
            i <= windows@.len(),
            forall|j: int| 0 <= j < i ==> windows@[j].minute != minute,
        decreases windows@.len() - i,
    {
        if windows[i].minute == minute {
            return Some(i);
        }
        i += 1;
    }
    None
}

/// Character-by-character string equality.
fn str_eq(a: &str, b: &str) -> (r: bool)
    ensures
        r == (a@ == b@),
{
    let la = a.unicode_len();
    let lb = b.unicode_len();
    if la != lb {
        proof {
            assert(a@ != b@);
        }
        return false;
    }
    let mut i: usize = 0;
    while i < la
        invariant
            la == a@.len(),
            la == b@.len(),
            i <= la,
            forall|j: int| 0 <= j < i ==> a@[j] == b@[j],
        decreases la - i,
    {
        if a.get_char(i) != b.get_char(i) {
            return false;
        }
        i += 1;
    }
    proof {
        assert(a@ =~= b@);
    }
    true
}

proof fn lemma_window_lookup_found(windows: Seq<WindowCount>, minute: int, idx: int)
    requires
        0 <= idx < windows.len(),
        windows[idx].minute as int == minute,
        forall|j: int| 0 <= j < idx ==> windows[j].minute as int != minute,
    ensures
        window_count_in(windows, minute) == Some(windows[idx].count),
    decreases idx,
{
    if idx > 0 {
        lemma_window_lookup_found(windows.drop_first(), minute, idx - 1);
    }
}

proof fn lemma_window_lookup_missing(windows: Seq<WindowCount>, minute: int)
    requires
        forall|j: int| 0 <= j < windows.len() ==> windows[j].minute as int != minute,
    ensures
        window_count_in(windows, minute) is None,
    decreases windows.len(),
{
    if windows.len() > 0 {
        lemma_window_lookup_missing(windows.drop_first(), minute);
    }
}

/// A lookup sees only the minutes, and the counts at its own minute.
proof fn lemma_window_frame(ws1: Seq<WindowCount>, ws2: Seq<WindowCount>, m: int)
    requires
        ws1.len() == ws2.len(),
        forall|j: int| 0 <= j < ws1.len() ==> ws1[j].minute == ws2[j].minute,
        forall|j: int|
            0 <= j < ws1.len() && ws1[j].minute as int == m ==> ws1[j].count == ws2[j].count,
    ensures
        window_count_in(ws1, m) == window_count_in(ws2, m),
    decreases ws1.len(),
{
    if ws1.len() > 0 {
        lemma_window_frame(ws1.drop_first(), ws2.drop_first(), m);
    }
}

/// Appending a window leaves every other minute's lookup unchanged.
proof fn lemma_window_push_other(ws: Seq<WindowCount>, entry: WindowCount, m: int)
    requires
        entry.minute as int != m,
    ensures
        window_count_in(ws.push(entry), m) == window_count_in(ws, m),
    decreases ws.len(),
{
    if ws.len() == 0 {
        assert(ws.push(entry)[0] == entry);
        assert(ws.push(entry).drop_first() =~= ws);
    } else {
        lemma_window_push_other(ws.drop_first(), entry, m);
        assert(ws.push(entry)[0] == ws[0]);
        assert(ws.push(entry).drop_first() =~= ws.drop_first().push(entry));
    }
}

/// Appending a window with an unseen minute makes its count that window's.
proof fn lemma_window_push_new(ws: Seq<WindowCount>, entry: WindowCount)
    requires
        window_count_in(ws, entry.minute as int) is None,
    ensures
        window_count_in(ws.push(entry), entry.minute as int) == Some(entry.count),
    decreases ws.len(),
{
    if ws.len() == 0 {
        assert(ws.push(entry)[0] == entry);
    } else {
        lemma_window_push_new(ws.drop_first(), entry);
        assert(ws.push(entry)[0] == ws[0]);
        assert(ws.push(entry).drop_first() =~= ws.drop_first().push(entry));
    }
}

proof fn lemma_user_lookup_found(requests: Seq<UserHistory>, user: Seq<char>, idx: int)
    requires
        0 <= idx < requests.len(),
        requests[idx].user@ == user,
        forall|j: int| 0 <= j < idx ==> requests[j].user@ != user,
    ensures
        user_windows(requests, user) == Some(requests[idx].windows@),
    decreases idx,
{
    if idx > 0 {
        lemma_user_lookup_found(requests.drop_first(), user, idx - 1);
    }
}

proof fn lemma_user_lookup_missing(requests: Seq<UserHistory>, user: Seq<char>)
    requires
        forall|j: int| 0 <= j < requests.len() ==> requests[j].user@ != user,
    ensures
        user_windows(requests, user) is None,
    decreases requests.len(),
{
    if requests.len() > 0 {
        lemma_user_lookup_missing(requests.drop_first(), user);
    }
}

/// A lookup sees only the user names, and the windows of its own user.
proof fn lemma_user_frame(r1: Seq<UserHistory>, r2: Seq<UserHistory>, u: Seq<char>)
    requires
        r1.len() == r2.len(),
        forall|j: int| 0 <= j < r1.len() ==> r1[j].user@ == r2[j].user@,
        forall|j: int| 0 <= j < r1.len() && r1[j].user@ == u ==> r1[j].windows@ == r2[j].windows@,
    ensures
        user_windows(r1, u) == user_windows(r2, u),
    decreases r1.len(),
{
    if r1.len() > 0 {
        lemma_user_frame(r1.drop_first(), r2.drop_first(), u);
    }
}

/// Appending a user leaves every other user's lookup unchanged.
proof fn lemma_user_push_other(rs: Seq<UserHistory>, entry: UserHistory, u: Seq<char>)
    requires
        entry.user@ != u,
    ensures
        user_windows(rs.push(entry), u) == user_windows(rs, u),
    decreases rs.len(),
{
    if rs.len() == 0 {
        assert(rs.push(entry)[0] == entry);
        assert(rs.push(entry).drop_first() =~= rs);
    } else {
        lemma_user_push_other(rs.drop_first(), entry, u);
        assert(rs.push(entry)[0] == rs[0]);
        assert(rs.push(entry).drop_first() =~= rs.drop_first().push(entry));
    }
}

} // verus!
