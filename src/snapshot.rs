//! The window snapshot reader: turns the text printed by the guest's
//! window-listing tools into window records.
use vstd::prelude::*;
use vstd::slice::slice_subrange;
use crate::text::{
    chars_of,
    string_from_chars,
    parse_u32,
    parse_i32,
    u32_text,
    i32_text,
    is_digit_in,
};

verus! {

/// One top-level window as observed in the guest.
#[derive(Debug, Clone, PartialEq, Eq)]
pub struct WindowRecord {
    pub id: u32,
    pub title: String,
    pub width: u32,
    pub height: u32,
    pub x: i32,
    pub y: i32,
    pub app_name: String,
    /// Owning process id, `0` when unknown.
    pub pid: u32,
}

/// `WindowRecord` with its strings seen as character sequences.
pub struct WindowState {
    pub id: u32,
    pub title: Seq<char>,
    pub width: u32,
    pub height: u32,
    pub x: i32,
    pub y: i32,
    pub app_name: Seq<char>,
    pub pid: u32,
}

impl View for WindowRecord {
    type V = WindowState;

    open spec fn view(&self) -> WindowState {
        WindowState {
            id: self.id,
            title: self.title@,
            width: self.width,
            height: self.height,
            x: self.x,
            y: self.y,
            app_name: self.app_name@,
            pid: self.pid,
        }
    }
}

impl WindowRecord {
    /// A field-for-field copy.
    pub fn duplicate(&self) -> (r: WindowRecord)
        ensures
            r@ == self@,
    {
        WindowRecord {
            id: self.id,
            title: self.title.clone(),
            width: self.width,
            height: self.height,
            x: self.x,
            y: self.y,
            app_name: self.app_name.clone(),
            pid: self.pid,
        }
    }
}

/// A geometry token `WIDTHxHEIGHT±X±Y`, read.
#[derive(Debug, Clone, Copy, PartialEq, Eq, Structural)]
pub struct Geometry {
    pub width: u32,
    pub height: u32,
    pub x: i32,
    pub y: i32,
}

/// The first index at or after `from` holding `c`, or `-1`.
pub open spec fn find_from(s: Seq<char>, c: char, from: int) -> int
    decreases s.len() - from,
{
    if from < 0 || from >= s.len() {
        -1
    } else if s[from] == c {
        from
    } else {
        find_from(s, c, from + 1)
    }
}

/// The first index holding `0` followed by `x`, or `-1`.
pub open spec fn find_hex_mark(s: Seq<char>, from: int) -> int
    decreases s.len() - from,
{
    if from < 0 || from + 1 >= s.len() {
        -1
    } else if s[from] == '0' && s[from + 1] == 'x' {
        from
    } else {
        find_hex_mark(s, from + 1)
    }
}

pub open spec fn contains_at(s: Seq<char>, pat: Seq<char>, i: int) -> bool {
    0 <= i && i + pat.len() <= s.len() && s.subrange(i, i + pat.len()) == pat
}

/// `pat` occurs in `s`.
pub open spec fn contains(s: Seq<char>, pat: Seq<char>) -> bool {
    exists|i: int| contains_at(s, pat, i)
}

/// The application a window title points to, from a fixed table of known
/// applications; `unknown` when none matches.
pub open spec fn app_name_for(title: Seq<char>) -> Seq<char> {
    if contains(title, "LibreWolf"@) {
        "librewolf"@
    } else if contains(title, "Firefox"@) {
        "firefox"@
    } else if contains(title, "Chromium"@) {
        "chromium"@
    } else if contains(title, "LibreOffice"@) {
        "libreoffice"@
    } else if contains(title, "Visual Studio Code"@) {
        "code"@
    } else {
        "unknown"@
    }
}

/// The end of the run of decimal digits starting at `p`.
pub open spec fn digit_run_end(s: Seq<char>, p: int) -> int
    decreases s.len() - p,
{
    if 0 <= p < s.len() && is_digit_in(s[p], false) {
        digit_run_end(s, p + 1)
    } else {
        p
    }
}

pub open spec fn is_sign(c: char) -> bool {
    c == '+' || c == '-'
}

/// A geometry token `digits x digits sign digits sign digits` starts at `p`.
pub open spec fn geometry_at(s: Seq<char>, p: int) -> bool {
    let a = digit_run_end(s, p);
    let b = digit_run_end(s, a + 1);
    let c = digit_run_end(s, b + 1);
    let d = digit_run_end(s, c + 1);
    &&& 0 <= p < a
    &&& a < s.len() && s[a] == 'x'
    &&& a + 1 < b
    &&& b < s.len() && is_sign(s[b])
    &&& b + 1 < c
    &&& c < s.len() && is_sign(s[c])
    &&& c + 1 < d
}

/// The first position at or after `from` where a geometry token starts, or `-1`.
pub open spec fn first_geometry(s: Seq<char>, from: int) -> int
    decreases s.len() - from,
{
    if from < 0 || from >= s.len() {
        -1
    } else if geometry_at(s, from) {
        from
    } else {
        first_geometry(s, from + 1)
    }
}

/// The first geometry token of a line, read; `None` when there is none or a
/// number in it is out of range.
pub open spec fn geometry_of(s: Seq<char>) -> Option<Geometry> {
    let p = first_geometry(s, 0);
    if p < 0 {
        None
    } else {
        let a = digit_run_end(s, p);
        let b = digit_run_end(s, a + 1);
        let c = digit_run_end(s, b + 1);
        let d = digit_run_end(s, c + 1);
        let w = u32_text(s.subrange(p, a), false);
        let h = u32_text(s.subrange(a + 1, b), false);
        let x = i32_text(s.subrange(b, c));
        let y = i32_text(s.subrange(c, d));
        if w is Some && h is Some && x is Some && y is Some {
            Some(Geometry { width: w->0, height: h->0, x: x->0, y: y->0 })
        } else {
            None
        }
    }
}

fn find_char(s: &[char], c: char, from: usize) -> (r: usize)
    requires
        from <= s@.len(),
    ensures
        from <= r <= s@.len(),
        r < s@.len() ==> find_from(s@, c, from as int) == r && s@[r as int] == c,
        r == s@.len() ==> find_from(s@, c, from as int) == -1,
{
    let mut i = from;
    while i < s.len()
        invariant
            from <= i <= s@.len(),
            find_from(s@, c, from as int) == find_from(s@, c, i as int),
        decreases s.len() - i,
    {
        if s[i] == c {
            return i;
        }
        i = i + 1;
    }
    i
}

fn find_hex(s: &[char]) -> (r: usize)
    ensures
        r <= s@.len(),
        r < s@.len() ==> find_hex_mark(s@, 0) == r && r + 1 < s@.len() && s@[r as int] == '0'
            && s@[r + 1] == 'x',
        r == s@.len() ==> find_hex_mark(s@, 0) == -1,
{
    let mut i: usize = 0;
    while i < s.len() && i + 1 < s.len()
        invariant
            i <= s@.len(),
            find_hex_mark(s@, 0) == find_hex_mark(s@, i as int),
        decreases s.len() - i,
    {
        if s[i] == '0' && s[i + 1] == 'x' {
            return i;
        }
        i = i + 1;
    }
    s.len()
}

fn matches_at(s: &[char], pat: &[char], i: usize) -> (r: bool)
    requires
        i + pat@.len() <= s@.len(),
    ensures
        r == contains_at(s@, pat@, i as int),
{
    let n = s.len();
    let mut j: usize = 0;
    while j < pat.len()
        invariant
            n == s@.len(),
            j <= pat@.len(),
            i + pat@.len() <= s@.len(),
            forall|k: int| 0 <= k < j ==> s@[i + k] == pat@[k],
        decreases pat.len() - j,
    {
        assert(i + j < s@.len());
        if s[i + j] != pat[j] {
            assert(s@.subrange(i as int, i + pat@.len())[j as int] != pat@[j as int]);
            return false;
        }
        j = j + 1;
    }
    assert(s@.subrange(i as int, i + pat@.len()) =~= pat@);
    true
}

fn contains_chars(s: &[char], pat: &[char]) -> (r: bool)
    ensures
        r == contains(s@, pat@),
{
    if pat.len() > s.len() {
        return false;
    }
    if pat.len() == 0 {
        assert(s@.subrange(0, 0) =~= pat@);
        assert(contains_at(s@, pat@, 0));
        return true;
    }
    let last = s.len() - pat.len();
    let mut i: usize = 0;
    while i <= last
        invariant
            pat@.len() <= s@.len(),
            last == s@.len() - pat@.len(),
            last < usize::MAX,
            i <= last + 1,
            forall|k: int| 0 <= k < i ==> !contains_at(s@, pat@, k),
        decreases last + 1 - i,
    {
        if matches_at(s, pat, i) {
            return true;
        }
        i = i + 1;
    }
    assert forall|k: int| !contains_at(s@, pat@, k) by {
        if k >= i {
            assert(k + pat@.len() > s@.len());
        }
    }
    false
}

/// The application a window title points to; `unknown` when none of the known
/// applications matches.
pub fn get_app_name_from_title(title: &str) -> (r: String)
    ensures
        r@ == app_name_for(title@),
{
    let t = chars_of(title);
    if contains_chars(&t, &chars_of("LibreWolf")) {
        String::from_str("librewolf")
    } else if contains_chars(&t, &chars_of("Firefox")) {
        String::from_str("firefox")
    } else if contains_chars(&t, &chars_of("Chromium")) {
        String::from_str("chromium")
    } else if contains_chars(&t, &chars_of("LibreOffice")) {
        String::from_str("libreoffice")
    } else if contains_chars(&t, &chars_of("Visual Studio Code")) {
        String::from_str("code")
    } else {
        String::from_str("unknown")
    }
}

fn run_end(s: &[char], p: usize) -> (r: usize)
    requires
        p <= s@.len(),
    ensures
        p <= r <= s@.len(),
        r == digit_run_end(s@, p as int),
{
    let mut i = p;
    while i < s.len() && '0' <= s[i] && s[i] <= '9'
        invariant
            p <= i <= s@.len(),
            digit_run_end(s@, p as int) == digit_run_end(s@, i as int),
        decreases s.len() - i,
    {
        i = i + 1;
    }
    i
}

fn geometry_at_exec(s: &[char], p: usize) -> (r: Option<(usize, usize, usize, usize)>)
    requires
        p < s@.len(),
    ensures
        r is Some <==> geometry_at(s@, p as int),
        r is Some ==> {
            let (a, b, c, d) = r->0;
            &&& a == digit_run_end(s@, p as int)
            &&& b == digit_run_end(s@, a + 1)
            &&& c == digit_run_end(s@, b + 1)
            &&& d == digit_run_end(s@, c + 1)
            &&& d <= s@.len()
        },
{
    let a = run_end(s, p);
    if a == p || a >= s.len() || s[a] != 'x' {
        return None;
    }
    let b = run_end(s, a + 1);
    if b == a + 1 || b >= s.len() || !(s[b] == '+' || s[b] == '-') {
        return None;
    }
    let c = run_end(s, b + 1);
    if c == b + 1 || c >= s.len() || !(s[c] == '+' || s[c] == '-') {
        return None;
    }
    let d = run_end(s, c + 1);
    if d == c + 1 {
        return None;
    }
    Some((a, b, c, d))
}

fn extract_geometry(s: &[char]) -> (r: Option<Geometry>)
    ensures
        r == geometry_of(s@),
{
    let mut p: usize = 0;
    while p < s.len()
        invariant
            p <= s@.len(),
            first_geometry(s@, 0) == first_geometry(s@, p as int),
        decreases s.len() - p,
    {
        match geometry_at_exec(s, p) {
            Some((a, b, c, d)) => {
                let w = parse_u32(slice_subrange(s, p, a), false);
                let h = parse_u32(slice_subrange(s, a + 1, b), false);
                let x = parse_i32(slice_subrange(s, b, c));
                let y = parse_i32(slice_subrange(s, c, d));
                return match (w, h, x, y) {
                    (Some(w), Some(h), Some(x), Some(y)) => Some(
                        Geometry { width: w, height: h, x, y },
                    ),
                    _ => None,
                };
            },
            None => {},
        }
        p = p + 1;
    }
    None
}

/// What one line of a window-tree listing describes: the window id after the
/// first `0x` (hexadecimal, up to the next space), the title between the first
/// two double quotes, and the first geometry token of the line.
pub open spec fn xwininfo_record(s: Seq<char>) -> Option<WindowState> {
    let a = find_hex_mark(s, 0);
    let e = find_from(s, ' ', a);
    let q1 = find_from(s, '"', 0);
    let q2 = find_from(s, '"', q1 + 1);
    if a < 0 || e < 0 || q1 < 0 || q2 < 0 {
        None
    } else {
        let id = u32_text(s.subrange(a + 2, e), true);
        let g = geometry_of(s);
        if id is Some && g is Some {
            let title = s.subrange(q1 + 1, q2);
            Some(
                WindowState {
                    id: id->0,
                    title,
                    width: g->0.width,
                    height: g->0.height,
                    x: g->0.x,
                    y: g->0.y,
                    app_name: app_name_for(title),
                    pid: 0,
                },
            )
        } else {
            None
        }
    }
}

pub open spec fn strip_cr(l: Seq<char>) -> Seq<char> {
    if l.len() > 0 && l.last() == '\r' {
        l.drop_last()
    } else {
        l
    }
}

pub open spec fn line_starts_at(s: Seq<char>, p: int) -> bool {
    0 <= p < s.len() && (p == 0 || s[p - 1] == '\n')
}

/// The line starting at `p`, without its line ending (`\n` or `\r\n`).
pub open spec fn line_at(s: Seq<char>, p: int) -> Seq<char> {
    let e = find_from(s, '\n', p);
    if e < 0 {
        s.subrange(p, s.len() as int)
    } else {
        strip_cr(s.subrange(p, e))
    }
}

/// The lines starting at or after `p`, in order.
pub open spec fn lines_from(s: Seq<char>, p: int) -> Seq<Seq<char>>
    decreases s.len() - p,
{
    if p < 0 || p >= s.len() {
        Seq::empty()
    } else if line_starts_at(s, p) {
        seq![line_at(s, p)] + lines_from(s, p + 1)
    } else {
        lines_from(s, p + 1)
    }
}

/// The lines of a text, in order.
pub open spec fn lines_of(s: Seq<char>) -> Seq<Seq<char>> {
    lines_from(s, 0)
}

pub open spec fn chars_views(v: Seq<Vec<char>>) -> Seq<Seq<char>> {
    v.map_values(|c: Vec<char>| c@)
}

pub open spec fn states(v: Seq<WindowRecord>) -> Seq<WindowState> {
    v.map_values(|r: WindowRecord| r@)
}

/// The records that the lines of a window-tree listing describe, in order;
/// lines naming children counts and lines that do not parse are skipped.
pub open spec fn xwininfo_records(ls: Seq<Seq<char>>) -> Seq<WindowState>
    decreases ls.len(),
{
    if ls.len() == 0 {
        Seq::empty()
    } else {
        let prev = xwininfo_records(ls.drop_last());
        let l = ls.last();
        if !contains(l, "children:"@) && xwininfo_record(l) is Some {
            prev.push(xwininfo_record(l)->0)
        } else {
            prev
        }
    }
}

/// A character with the Unicode `White_Space` property.
pub open spec fn is_space(c: char) -> bool {
    ||| c == ' ' || c == '\t' || c == '\n' || c == '\r' || c == '\x0b' || c == '\x0c'
    ||| c == '\u{85}' || c == '\u{a0}' || c == '\u{1680}'
    ||| ('\u{2000}' <= c && c <= '\u{200a}')
    ||| c == '\u{2028}' || c == '\u{2029}' || c == '\u{202f}' || c == '\u{205f}' || c == '\u{3000}'
}

pub open spec fn token_end(s: Seq<char>, p: int) -> int
    decreases s.len() - p,
{
    if 0 <= p < s.len() && !is_space(s[p]) {
        token_end(s, p + 1)
    } else {
        p
    }
}

pub open spec fn token_starts_at(s: Seq<char>, p: int) -> bool {
    0 <= p < s.len() && !is_space(s[p]) && (p == 0 || is_space(s[p - 1]))
}

/// The whitespace-separated tokens starting at or after `p`, in order.
pub open spec fn tokens_from(s: Seq<char>, p: int) -> Seq<Seq<char>>
    decreases s.len() - p,
{
    if p < 0 || p >= s.len() {
        Seq::empty()
    } else if token_starts_at(s, p) {
        seq![s.subrange(p, token_end(s, p))] + tokens_from(s, p + 1)
    } else {
        tokens_from(s, p + 1)
    }
}

/// Tokens joined with single spaces.
pub open spec fn join_spaced(ts: Seq<Seq<char>>) -> Seq<char>
    decreases ts.len(),
{
    if ts.len() == 0 {
        Seq::empty()
    } else if ts.len() == 1 {
        ts[0]
    } else {
        join_spaced(ts.drop_last()) + seq![' '] + ts.last()
    }
}

/// What one line of a columnar window listing describes: the columns are id
/// (two leading characters, then hexadecimal), desktop, x, y, width, height,
/// host, and the title made of all remaining tokens. A line without at least
/// one title token describes no window.
pub open spec fn wmctrl_record(s: Seq<char>) -> Option<WindowState> {
    let t = tokens_from(s, 0);
    if t.len() < 8 || t[0].len() < 2 {
        None
    } else {
        let id = u32_text(t[0].skip(2), true);
        let x = i32_text(t[2]);
        let y = i32_text(t[3]);
        let w = u32_text(t[4], false);
        let h = u32_text(t[5], false);
        if id is Some && x is Some && y is Some && w is Some && h is Some {
            let title = join_spaced(t.skip(7));
            Some(
                WindowState {
                    id: id->0,
                    title,
                    width: w->0,
                    height: h->0,
                    x: x->0,
                    y: y->0,
                    app_name: app_name_for(title),
                    pid: 0,
                },
            )
        } else {
            None
        }
    }
}

pub open spec fn wmctrl_records(ls: Seq<Seq<char>>) -> Seq<WindowState>
    decreases ls.len(),
{
    if ls.len() == 0 {
        Seq::empty()
    } else {
        let prev = wmctrl_records(ls.drop_last());
        match wmctrl_record(ls.last()) {
            Some(r) => prev.push(r),
            None => prev,
        }
    }
}

fn record_from(id: u32, title: &[char], g: Geometry) -> (r: WindowRecord)
    ensures
        r@ == (WindowState {
            id,
            title: title@,
            width: g.width,
            height: g.height,
            x: g.x,
            y: g.y,
            app_name: app_name_for(title@),
            pid: 0,
        }),
{
    let title = string_from_chars(title);
    let app_name = get_app_name_from_title(title.as_str());
    WindowRecord {
        id,
        title,
        width: g.width,
        height: g.height,
        x: g.x,
        y: g.y,
        app_name,
        pid: 0,
    }
}

fn xwininfo_line(s: &[char]) -> (r: Option<WindowRecord>)
    ensures
        r is Some <==> xwininfo_record(s@) is Some,
        r is Some ==> r->0@ == xwininfo_record(s@)->0,
{
    let a = find_hex(s);
    if a == s.len() {
        return None;
    }
    let e = find_char(s, ' ', a);
    if e == s.len() {
        return None;
    }
    let q1 = find_char(s, '"', 0);
    if q1 == s.len() {
        return None;
    }
    let q2 = find_char(s, '"', q1 + 1);
    if q2 == s.len() {
        return None;
    }
    let id = parse_u32(slice_subrange(s, a + 2, e), true);
    let g = extract_geometry(s);
    match (id, g) {
        (Some(id), Some(g)) => Some(record_from(id, slice_subrange(s, q1 + 1, q2), g)),
        _ => None,
    }
}

/// The window that one line of a window-tree listing describes, if any.
pub fn parse_xwininfo_line(line: &str) -> (r: Option<WindowRecord>)
    ensures
        r is Some <==> xwininfo_record(line@) is Some,
        r is Some ==> r->0@ == xwininfo_record(line@)->0,
{
    xwininfo_line(&chars_of(line))
}

/// The lines of a text, as `lines_of` describes them.
pub(crate) fn split_lines(s: &[char]) -> (r: Vec<Vec<char>>)
    ensures
        chars_views(r@) == lines_of(s@),
{
    let mut out: Vec<Vec<char>> = Vec::new();
    let mut p: usize = 0;
    assert(chars_views(out@) + lines_from(s@, 0) =~= lines_from(s@, 0));
    while p < s.len()
        invariant
            p <= s@.len(),
            lines_of(s@) == chars_views(out@) + lines_from(s@, p as int),
        decreases s.len() - p,
    {
        if p == 0 || s[p - 1] == '\n' {
            let e = find_char(s, '\n', p);
            let mut end = e;
            if e < s.len() && e > p && s[e - 1] == '\r' {
                end = e - 1;
            }
            let line = slice_subrange(s, p, end);
            let v = vstd::slice::slice_to_vec(line);
            proof {
                assert(v@ == line_at(s@, p as int));
                assert(chars_views(out@.push(v)) =~= chars_views(out@) + seq![v@]);
                assert(chars_views(out@) + (seq![line_at(s@, p as int)] + lines_from(
                    s@,
                    p + 1,
                )) =~= chars_views(out@.push(v)) + lines_from(s@, p + 1));
            }
            out.push(v);
        }
        p = p + 1;
    }
    assert(lines_from(s@, p as int) =~= Seq::<Seq<char>>::empty());
    assert(chars_views(out@) + Seq::<Seq<char>>::empty() =~= chars_views(out@));
    out
}

/// The windows that a window-tree listing describes, in order of appearance.
pub fn parse_xwininfo_output(output: &str) -> (r: Vec<WindowRecord>)
    ensures
        states(r@) == xwininfo_records(lines_of(output@)),
{
    let s = chars_of(output);
    let lines = split_lines(&s);
    let ghost ls = lines_of(output@);
    let children = chars_of("children:");
    let mut out: Vec<WindowRecord> = Vec::new();
    let mut i: usize = 0;
    while i < lines.len()
        invariant
            i <= lines@.len(),
            chars_views(lines@) == ls,
            children@ == "children:"@,
            states(out@) == xwininfo_records(ls.take(i as int)),
        decreases lines.len() - i,
    {
        let line = &lines[i];
        assert(ls.take(i + 1).drop_last() =~= ls.take(i as int));
        assert(ls.take(i + 1).last() == line@);
        if !contains_chars(line, &children) {
            match xwininfo_line(line) {
                Some(r) => {
                    assert(states(out@.push(r)) =~= states(out@).push(r@));
                    out.push(r);
                },
                None => {},
            }
        }
        i = i + 1;
    }
    assert(ls.take(i as int) =~= ls);
    out
}

fn space(c: char) -> (r: bool)
    ensures
        r == is_space(c),
{
    (c == ' ' || c == '\t' || c == '\n' || c == '\r' || c == '\x0b' || c == '\x0c') || (c
        == '\u{85}' || c == '\u{a0}' || c == '\u{1680}') || ('\u{2000}' <= c && c <= '\u{200a}') || (
    c == '\u{2028}' || c == '\u{2029}' || c == '\u{202f}' || c == '\u{205f}' || c == '\u{3000}')
}

fn split_tokens(s: &[char]) -> (r: Vec<Vec<char>>)
    ensures
        chars_views(r@) == tokens_from(s@, 0),
{
    let mut out: Vec<Vec<char>> = Vec::new();
    let mut p: usize = 0;
    assert(chars_views(out@) + tokens_from(s@, 0) =~= tokens_from(s@, 0));
    while p < s.len()
        invariant
            p <= s@.len(),
            tokens_from(s@, 0) == chars_views(out@) + tokens_from(s@, p as int),
        decreases s.len() - p,
    {
        if !space(s[p]) && (p == 0 || space(s[p - 1])) {
            let mut e = p;
            while e < s.len() && !space(s[e])
                invariant
                    p <= e <= s@.len(),
                    token_end(s@, p as int) == token_end(s@, e as int),
                decreases s.len() - e,
            {
                e = e + 1;
            }
            let v = vstd::slice::slice_to_vec(slice_subrange(s, p, e));
            proof {
                assert(chars_views(out@.push(v)) =~= chars_views(out@) + seq![v@]);
                assert(chars_views(out@) + (seq![v@] + tokens_from(s@, p + 1)) =~= chars_views(
                    out@.push(v),
                ) + tokens_from(s@, p + 1));
            }
            out.push(v);
        }
        p = p + 1;
    }
    assert(chars_views(out@) + Seq::<Seq<char>>::empty() =~= chars_views(out@));
    out
}

fn join_from(ts: &Vec<Vec<char>>, from: usize) -> (r: Vec<char>)
    requires
        from <= ts@.len(),
    ensures
        r@ == join_spaced(chars_views(ts@).skip(from as int)),
{
    let ghost v = chars_views(ts@);
    let mut out: Vec<char> = Vec::new();
    let mut k = from;
    assert(v.subrange(from as int, from as int) =~= Seq::<Seq<char>>::empty());
    while k < ts.len()
        invariant
            from <= k <= ts@.len(),
            v == chars_views(ts@),
            out@ == join_spaced(v.subrange(from as int, k as int)),
        decreases ts.len() - k,
    {
        let ghost part = v.subrange(from as int, k + 1);
        assert(part.drop_last() =~= v.subrange(from as int, k as int));
        assert(part.last() == ts@[k as int]@);
        if k > from {
            out.push(' ');
        }
        let t = &ts[k];
        let mut j: usize = 0;
        let ghost base = out@;
        while j < t.len()
            invariant
                j <= t@.len(),
                out@ == base + t@.take(j as int),
            decreases t.len() - j,
        {
            out.push(t[j]);
            assert(t@.take(j + 1) =~= t@.take(j as int).push(t@[j as int]));
            assert(out@ =~= base + t@.take(j + 1));
            j = j + 1;
        }
        proof {
            assert(t@.take(j as int) =~= t@);
            if k == from {
                assert(base =~= Seq::<char>::empty());
                assert(out@ =~= part[0]);
            }
        }
        k = k + 1;
    }
    assert(v.subrange(from as int, k as int) =~= v.skip(from as int));
    out
}

fn wmctrl_line(s: &[char]) -> (r: Option<WindowRecord>)
    ensures
        r is Some <==> wmctrl_record(s@) is Some,
        r is Some ==> r->0@ == wmctrl_record(s@)->0,
{
    let t = split_tokens(s);
    let ghost tv = tokens_from(s@, 0);
    if t.len() < 8 || t[0].len() < 2 {
        return None;
    }
    assert(tv[0] == t@[0]@ && tv[2] == t@[2]@ && tv[3] == t@[3]@ && tv[4] == t@[4]@ && tv[5]
        == t@[5]@);
    let t0 = t[0].as_slice();
    let id = parse_u32(slice_subrange(t0, 2, t0.len()), true);
    assert(t0@.subrange(2, t0@.len() as int) =~= tv[0].skip(2));
    let x = parse_i32(t[2].as_slice());
    let y = parse_i32(t[3].as_slice());
    let w = parse_u32(t[4].as_slice(), false);
    let h = parse_u32(t[5].as_slice(), false);
    match (id, x, y, w, h) {
        (Some(id), Some(x), Some(y), Some(w), Some(h)) => {
            let title = join_from(&t, 7);
            Some(record_from(id, title.as_slice(), Geometry { width: w, height: h, x, y }))
        },
        _ => None,
    }
}

/// The windows that a columnar window listing describes, in order of appearance.
pub fn parse_wmctrl_output(output: &str) -> (r: Vec<WindowRecord>)
    ensures
        states(r@) == wmctrl_records(lines_of(output@)),
{
    let s = chars_of(output);
    let lines = split_lines(&s);
    let ghost ls = lines_of(output@);
    let mut out: Vec<WindowRecord> = Vec::new();
    let mut i: usize = 0;
    while i < lines.len()
        invariant
            i <= lines@.len(),
            chars_views(lines@) == ls,
            states(out@) == wmctrl_records(ls.take(i as int)),
        decreases lines.len() - i,
    {
        assert(ls.take(i + 1).drop_last() =~= ls.take(i as int));
        assert(ls.take(i + 1).last() == lines@[i as int]@);
        match wmctrl_line(&lines[i]) {
            Some(r) => {
                assert(states(out@.push(r)) =~= states(out@).push(r@));
                out.push(r);
            },
            None => {},
        }
        i = i + 1;
    }
    assert(ls.take(i as int) =~= ls);
    out
}

} // verus!
