use vstd::prelude::*;

verus! {

/// Copies the characters of `s` into a vector.
pub fn chars_of(s: &str) -> (v: Vec<char>)
    ensures
        v@ == s@,
{
    let mut v: Vec<char> = Vec::new();
    for c in it: s.chars()
        invariant
            it.seq() == s@,
            v@ == it.seq().take(it.index()),
    {
        v.push(c);
    }
    v
}

/// `p` without its trailing `/` separators.
pub open spec fn trim_trailing_separators(p: Seq<char>) -> Seq<char>
    decreases p.len(),
{
    if p.len() > 0 && p.last() == '/' {
        trim_trailing_separators(p.drop_last())
    } else {
        p
    }
}

/// The characters of `p` after its last `/` (all of `p` when it has none).
pub open spec fn last_segment(p: Seq<char>) -> Seq<char>
    decreases p.len(),
{
    if p.len() == 0 || p.last() == '/' {
        Seq::empty()
    } else {
        last_segment(p.drop_last()).push(p.last())
    }
}

/// Trimming separators keeps a prefix of the path that does not end in `/`.
pub proof fn lemma_trim_len(p: Seq<char>)
    ensures
        trim_trailing_separators(p).len() <= p.len(),
        trim_trailing_separators(p) == p.take(trim_trailing_separators(p).len() as int),
        trim_trailing_separators(p).len() > 0 ==> trim_trailing_separators(p).last() != '/',
    decreases p.len(),
{
    if p.len() > 0 && p.last() == '/' {
        lemma_trim_len(p.drop_last());
        assert(p.drop_last().take(trim_trailing_separators(p).len() as int)
            =~= p.take(trim_trailing_separators(p).len() as int));
    } else {
        assert(p == p.take(p.len() as int));
    }
}

/// The last segment is a suffix of the path without `/`, preceded by a `/` when shorter.
pub proof fn lemma_last_segment(p: Seq<char>)
    ensures
        last_segment(p).len() <= p.len(),
        last_segment(p) == p.subrange(p.len() - last_segment(p).len(), p.len() as int),
        p.len() > 0 && p.last() != '/' ==> last_segment(p).len() > 0,
        forall|k: int| 0 <= k < last_segment(p).len() ==> last_segment(p)[k] != '/',
        last_segment(p).len() < p.len() ==> p[p.len() - last_segment(p).len() - 1] == '/',
    decreases p.len(),
{
    if p.len() == 0 || p.last() == '/' {
    } else {
        lemma_last_segment(p.drop_last());
        assert(last_segment(p) =~= p.subrange(p.len() - last_segment(p).len(), p.len() as int));
    }
}

/// The file name of a `/`-separated path, found the way `std::path::Path::file_name` finds
/// it: the last component that is neither empty nor `.`, unless that component is `..`.
pub open spec fn file_name(p: Seq<char>) -> Option<Seq<char>>
    decreases p.len(),
{
    let t = trim_trailing_separators(p);
    if t.len() == 0 {
        None
    } else {
        let seg = last_segment(t);
        if seg == seq!['.'] {
            proof {
                lemma_trim_len(p);
            }
            file_name(t.drop_last())
        } else if seg == seq!['.', '.'] {
            None
        } else {
            Some(seg)
        }
    }
}

/// Index of the last `.` in `s`, or -1 when there is none.
pub open spec fn last_dot(s: Seq<char>) -> int
    decreases s.len(),
{
    if s.len() == 0 {
        -1
    } else if s.last() == '.' {
        s.len() - 1
    } else {
        last_dot(s.drop_last())
    }
}

/// The extension of a file name as `std::path::Path::extension` finds it: the text after
/// the last `.`, when that `.` is not the first character.
pub open spec fn name_extension(name: Seq<char>) -> Option<Seq<char>> {
    let d = last_dot(name);
    if d <= 0 {
        None
    } else {
        Some(name.skip(d + 1))
    }
}

/// The extension of the path `p`.
pub open spec fn path_extension(p: Seq<char>) -> Option<Seq<char>> {
    match file_name(p) {
        Some(f) => name_extension(f),
        None => None,
    }
}


/// The prefix `v[..end]` without its trailing separators, as a length.
fn trim_end(v: &Vec<char>, end: usize) -> (r: usize)
    requires
        end <= v.len(),
    ensures
        r <= end,
        v@.take(r as int) == trim_trailing_separators(v@.take(end as int)),
{
    let mut e = end;
    while e > 0 && v[e - 1] == '/'
        invariant
            e <= end <= v.len(),
            trim_trailing_separators(v@.take(e as int)) == trim_trailing_separators(
                v@.take(end as int),
            ),
        decreases e,
    {
        assert(v@.take(e as int).drop_last() =~= v@.take(e - 1));
        e = e - 1;
    }
    e
}

/// Start of the last segment of `v[..end]`.
fn segment_start(v: &Vec<char>, end: usize) -> (r: usize)
    requires
        end <= v.len(),
    ensures
        r <= end,
        v@.subrange(r as int, end as int) == last_segment(v@.take(end as int)),
{
    let mut i = end;
    while i > 0 && v[i - 1] != '/'
        invariant
            i <= end <= v.len(),
            last_segment(v@.take(end as int)) == last_segment(v@.take(i as int)) + v@.subrange(
                i as int,
                end as int,
            ),
        decreases i,
    {
        assert(v@.take(i as int).drop_last() =~= v@.take(i - 1));
        assert(v@.subrange(i - 1, end as int) =~= seq![v@[i - 1]] + v@.subrange(
            i as int,
            end as int,
        ));
        assert(last_segment(v@.take(i as int)) == last_segment(v@.take(i - 1)).push(v@[i - 1]));
        i = i - 1;
    }
    assert(last_segment(v@.take(i as int)) =~= Seq::<char>::empty());
    assert(last_segment(v@.take(end as int)) =~= v@.subrange(i as int, end as int));
    i
}

/// The file name of the path held in `v`, as a range of positions.
pub fn file_name_range(v: &Vec<char>) -> (r: Option<(usize, usize)>)
    ensures
        match r {
            None => file_name(v@) is None,
            Some((s, e)) => s < e <= v.len() && file_name(v@) == Some(v@.subrange(s as int, e as int)),
        },
{
    let mut end = v.len();
    assert(v@.take(end as int) =~= v@);
    loop
        invariant
            end <= v.len(),
            file_name(v@.take(end as int)) == file_name(v@),
        decreases end,
    {
        let t = trim_end(v, end);
        let ghost p = v@.take(end as int);
        proof {
            lemma_trim_len(p);
        }
        if t == 0 {
            return None;
        }
        let i = segment_start(v, t);
        proof {
            assert(v@.take(t as int).take(t as int) =~= v@.take(t as int));
            lemma_last_segment(v@.take(t as int));
        }
        if t - i == 1 && v[i] == '.' {
            assert(last_segment(trim_trailing_separators(p)) =~= seq!['.']);
            assert(trim_trailing_separators(p).drop_last() =~= v@.take(t - 1));
            end = t - 1;
        } else if t - i == 2 && v[i] == '.' && v[i + 1] == '.' {
            assert(last_segment(trim_trailing_separators(p)) =~= seq!['.', '.']);
            return None;
        } else {
            assert(last_segment(trim_trailing_separators(p)) != seq!['.']) by {
                if t - i == 1 {
                    assert(last_segment(trim_trailing_separators(p))[0] == v@[i as int]);
                }
            }
            assert(last_segment(trim_trailing_separators(p)) != seq!['.', '.']) by {
                if t - i == 2 {
                    assert(last_segment(trim_trailing_separators(p))[0] == v@[i as int]);
                    assert(last_segment(trim_trailing_separators(p))[1] == v@[i + 1]);
                }
            }
            return Some((i, t));
        }
    }
}

/// Start of the extension of the file name `v[s..e]`.
pub fn extension_start(v: &Vec<char>, s: usize, e: usize) -> (r: Option<usize>)
    requires
        s <= e <= v.len(),
    ensures
        match r {
            None => name_extension(v@.subrange(s as int, e as int)) is None,
            Some(k) => s < k <= e && name_extension(v@.subrange(s as int, e as int)) == Some(
                v@.subrange(k as int, e as int),
            ),
        },
{
    let mut j = e;
    while j > s && v[j - 1] != '.'
        invariant
            s <= j <= e <= v.len(),
            last_dot(v@.subrange(s as int, e as int)) == last_dot(v@.subrange(s as int, j as int)),
        decreases j,
    {
        assert(v@.subrange(s as int, j as int).drop_last() =~= v@.subrange(s as int, j - 1));
        j = j - 1;
    }
    if j == s || j - 1 == s {
        return None;
    }
    assert(v@.subrange(s as int, e as int).skip(j - s) =~= v@.subrange(j as int, e as int));
    Some(j)
}

/// ASCII lower-casing of one character, as `char::to_ascii_lowercase` does it.
pub open spec fn ascii_lower(c: char) -> char {
    if 'A' <= c <= 'Z' {
        ((c as u32) + 32) as char
    } else {
        c
    }
}

/// ASCII lower-casing of a string, as `str::to_ascii_lowercase` does it.
pub open spec fn ascii_lowercase(s: Seq<char>) -> Seq<char> {
    s.map_values(|c: char| ascii_lower(c))
}

/// ASCII lower-casing of one character.
pub fn to_ascii_lower(c: char) -> (r: char)
    ensures
        r == ascii_lower(c),
{
    if c >= 'A' && c <= 'Z' {
        let b: u8 = c as u8;
        (b + 32) as char
    } else {
        c
    }
}

/// Whether the lower-cased `v[s..e]` equals `target`.
pub fn lower_equals(v: &Vec<char>, s: usize, e: usize, target: &Vec<char>) -> (r: bool)
    requires
        s <= e <= v.len(),
    ensures
        r == (ascii_lowercase(v@.subrange(s as int, e as int)) == target@),
{
    let ghost low = ascii_lowercase(v@.subrange(s as int, e as int));
    if e - s != target.len() {
        assert(low.len() != target@.len());
        return false;
    }
    let mut k: usize = 0;
    while k < target.len()
        invariant
            s <= e <= v.len(),
            e - s == target.len(),
            k <= target.len(),
            low == ascii_lowercase(v@.subrange(s as int, e as int)),
            forall|m: int| 0 <= m < k ==> low[m] == target@[m],
        decreases target.len() - k,
    {
        let c = to_ascii_lower(v[s + k]);
        if c != target[k] {
            assert(low[k as int] != target@[k as int]);
            return false;
        }
        k = k + 1;
    }
    assert(low =~= target@);
    true
}


/// Whether `ext` names an image format the reader shows (case-insensitively):
/// jpg, jpeg, png, webp, gif, bmp, tif or tiff.
pub open spec fn is_image_extension(ext: Seq<char>) -> bool {
    let l = ascii_lowercase(ext);
    ||| l == seq!['j', 'p', 'g']
    ||| l == seq!['j', 'p', 'e', 'g']
    ||| l == seq!['p', 'n', 'g']
    ||| l == seq!['w', 'e', 'b', 'p']
    ||| l == seq!['g', 'i', 'f']
    ||| l == seq!['b', 'm', 'p']
    ||| l == seq!['t', 'i', 'f']
    ||| l == seq!['t', 'i', 'f', 'f']
}

/// Whether `ext` names a comic archive format (case-insensitively): zip or cbz.
pub open spec fn is_archive_extension(ext: Seq<char>) -> bool {
    let l = ascii_lowercase(ext);
    ||| l == seq!['z', 'i', 'p']
    ||| l == seq!['c', 'b', 'z']
}

/// Whether the path names an image page, judged by its extension.
pub open spec fn spec_is_supported_image_name(name: Seq<char>) -> bool {
    match path_extension(name) {
        Some(ext) => is_image_extension(ext),
        None => false,
    }
}

/// Whether the path names a comic archive, judged by its extension.
pub open spec fn has_archive_extension(path: Seq<char>) -> bool {
    match path_extension(path) {
        Some(ext) => is_archive_extension(ext),
        None => false,
    }
}

/// Finds the extension of `path` as a range of positions of `v`, where `v@ == path`.
fn extension_range(v: &Vec<char>) -> (r: Option<(usize, usize)>)
    ensures
        match r {
            None => path_extension(v@) is None,
            Some((s, e)) => s <= e <= v.len() && path_extension(v@) == Some(
                v@.subrange(s as int, e as int),
            ),
        },
{
    match file_name_range(v) {
        None => None,
        Some((s, e)) => match extension_start(v, s, e) {
            None => None,
            Some(k) => Some((k, e)),
        },
    }
}

/// Whether a page name has one of the image extensions that the reader decodes.
pub fn is_supported_image_name(name: &str) -> (r: bool)
    ensures
        r == spec_is_supported_image_name(name@),
{
    let v = chars_of(name);
    match extension_range(&v) {
        None => false,
        Some((s, e)) => {
            lower_equals(&v, s, e, &vec!['j', 'p', 'g'])
                || lower_equals(&v, s, e, &vec!['j', 'p', 'e', 'g'])
                || lower_equals(&v, s, e, &vec!['p', 'n', 'g'])
                || lower_equals(&v, s, e, &vec!['w', 'e', 'b', 'p'])
                || lower_equals(&v, s, e, &vec!['g', 'i', 'f'])
                || lower_equals(&v, s, e, &vec!['b', 'm', 'p'])
                || lower_equals(&v, s, e, &vec!['t', 'i', 'f'])
                || lower_equals(&v, s, e, &vec!['t', 'i', 'f', 'f'])
        },
    }
}

/// Whether a path has the extension of a comic archive (zip or cbz).
pub fn is_archive_name(path: &str) -> (r: bool)
    ensures
        r == has_archive_extension(path@),
{
    let v = chars_of(path);
    match extension_range(&v) {
        None => false,
        Some((s, e)) => lower_equals(&v, s, e, &vec!['z', 'i', 'p']) || lower_equals(
            &v,
            s,
            e,
            &vec!['c', 'b', 'z'],
        ),
    }
}


/// `ascii_lowercase` of an optional text.
pub open spec fn lowercase_option(o: Option<Seq<char>>) -> Option<Seq<char>> {
    match o {
        Some(t) => Some(ascii_lowercase(t)),
        None => None,
    }
}

/// Lower-casing keeps `/` and `.` where they are, and changes no other character into them;
/// it is done character by character.
proof fn lemma_lower_char(c: char)
    ensures
        ascii_lower(c) == '/' <==> c == '/',
        ascii_lower(c) == '.' <==> c == '.',
        ascii_lower(ascii_lower(c)) == ascii_lower(c),
{
}

proof fn lemma_lowercase_shape(s: Seq<char>)
    ensures
        ascii_lowercase(s).len() == s.len(),
        forall|i: int| 0 <= i < s.len() ==> #[trigger] ascii_lowercase(s)[i] == ascii_lower(s[i]),
        s.len() > 0 ==> ascii_lowercase(s).drop_last() == ascii_lowercase(s.drop_last()),
        s.len() > 0 ==> ascii_lowercase(s).last() == ascii_lower(s.last()),
        forall|c: char| #[trigger] ascii_lowercase(s.push(c)) == ascii_lowercase(s).push(ascii_lower(c)),
        forall|k: int| 0 <= k <= s.len() ==> #[trigger] ascii_lowercase(s.skip(k)) == ascii_lowercase(s).skip(k),
{
    if s.len() > 0 {
        assert(ascii_lowercase(s).drop_last() =~= ascii_lowercase(s.drop_last()));
    }
    assert forall|c: char| #[trigger] ascii_lowercase(s.push(c)) == ascii_lowercase(s).push(ascii_lower(c)) by {
        assert(ascii_lowercase(s.push(c)) =~= ascii_lowercase(s).push(ascii_lower(c)));
    }
    assert forall|k: int| 0 <= k <= s.len() implies #[trigger] ascii_lowercase(s.skip(k)) == ascii_lowercase(s).skip(k) by {
        assert(ascii_lowercase(s.skip(k)) =~= ascii_lowercase(s).skip(k));
    }
}

proof fn lemma_lowercase_trim(p: Seq<char>)
    ensures
        trim_trailing_separators(ascii_lowercase(p)) == ascii_lowercase(trim_trailing_separators(p)),
    decreases p.len(),
{
    lemma_lowercase_shape(p);
    if p.len() > 0 {
        lemma_lower_char(p.last());
        lemma_lowercase_trim(p.drop_last());
    }
}

proof fn lemma_lowercase_segment(p: Seq<char>)
    ensures
        last_segment(ascii_lowercase(p)) == ascii_lowercase(last_segment(p)),
    decreases p.len(),
{
    lemma_lowercase_shape(p);
    if p.len() > 0 {
        lemma_lower_char(p.last());
        lemma_lowercase_segment(p.drop_last());
        lemma_lowercase_shape(last_segment(p.drop_last()));
    } else {
        assert(ascii_lowercase(p) =~= Seq::<char>::empty());
        assert(ascii_lowercase(Seq::<char>::empty()) =~= Seq::<char>::empty());
    }
}

proof fn lemma_lowercase_file_name(p: Seq<char>)
    ensures
        file_name(ascii_lowercase(p)) == lowercase_option(file_name(p)),
    decreases p.len(),
{
    let t = trim_trailing_separators(p);
    lemma_lowercase_trim(p);
    lemma_trim_len(p);
    lemma_lowercase_shape(t);
    if t.len() > 0 {
        let seg = last_segment(t);
        lemma_lowercase_segment(t);
        lemma_lowercase_shape(seg);
        assert(ascii_lowercase(seg) == seq!['.'] <==> seg == seq!['.']) by {
            if seg.len() == 1 {
                lemma_lower_char(seg[0]);
                if seg == seq!['.'] {
                    assert(ascii_lowercase(seg) =~= seq!['.']);
                }
                if ascii_lowercase(seg) == seq!['.'] {
                    assert(seg =~= seq!['.']);
                }
            }
        }
        assert(ascii_lowercase(seg) == seq!['.', '.'] <==> seg == seq!['.', '.']) by {
            if seg.len() == 2 {
                lemma_lower_char(seg[0]);
                lemma_lower_char(seg[1]);
                if seg == seq!['.', '.'] {
                    assert(ascii_lowercase(seg) =~= seq!['.', '.']);
                }
                if ascii_lowercase(seg) == seq!['.', '.'] {
                    assert(ascii_lowercase(seg)[0] == '.' && ascii_lowercase(seg)[1] == '.');
                    assert(seg =~= seq!['.', '.']);
                }
            }
        }
        if seg == seq!['.'] {
            lemma_lowercase_file_name(t.drop_last());
        }
    }
}

proof fn lemma_lowercase_last_dot(s: Seq<char>)
    ensures
        last_dot(ascii_lowercase(s)) == last_dot(s),
        -1 <= last_dot(s) < s.len(),
    decreases s.len(),
{
    lemma_lowercase_shape(s);
    if s.len() > 0 {
        lemma_lower_char(s.last());
        lemma_lowercase_last_dot(s.drop_last());
    }
}

/// Lower-casing a path lower-cases its extension and changes nothing else about it: where
/// its file name and extension start does not depend on letter case.
pub proof fn lemma_lowercase_path_extension(p: Seq<char>)
    ensures
        path_extension(ascii_lowercase(p)) == lowercase_option(path_extension(p)),
{
    lemma_lowercase_file_name(p);
    match file_name(p) {
        Some(f) => {
            lemma_lowercase_last_dot(f);
            lemma_lowercase_shape(f);
            let d = last_dot(f);
            if d > 0 {
                assert(ascii_lowercase(f.skip(d + 1)) == ascii_lowercase(f).skip(d + 1));
            }
        },
        None => {},
    }
}

/// Lower-casing twice is lower-casing once.
pub proof fn lemma_lowercase_idempotent(s: Seq<char>)
    ensures
        ascii_lowercase(ascii_lowercase(s)) == ascii_lowercase(s),
{
    assert forall|i: int| 0 <= i < s.len() implies #[trigger] ascii_lowercase(ascii_lowercase(s))[i] == ascii_lowercase(s)[i] by {
        lemma_lower_char(s[i]);
    }
    assert(ascii_lowercase(ascii_lowercase(s)) =~= ascii_lowercase(s));
}

/// Law: letter case does not matter to whether a path names a comic archive. A path and
/// its ASCII lower-cased form either both name an archive or neither does; and a path names
/// one exactly when it has an extension that lower-cases to `zip` or `cbz`.
pub proof fn law_archive_names_ignore_case(p: Seq<char>)
    ensures
        has_archive_extension(ascii_lowercase(p)) == has_archive_extension(p),
        has_archive_extension(p) <==> exists|e: Seq<char>|
            path_extension(p) == Some(e) && (ascii_lowercase(e) == seq!['z', 'i', 'p'] || ascii_lowercase(e)
                == seq!['c', 'b', 'z']),
{
    lemma_lowercase_path_extension(p);
    match path_extension(p) {
        Some(e) => {
            lemma_lowercase_idempotent(e);
        },
        None => {},
    }
}

/// Law: letter case does not matter to whether a name is an image page. A name and its
/// ASCII lower-cased form either both have an image extension or neither does; and a name
/// has one exactly when its extension lower-cases to jpg, jpeg, png, webp, gif, bmp, tif or
/// tiff.
pub proof fn law_image_names_ignore_case(p: Seq<char>)
    ensures
        spec_is_supported_image_name(ascii_lowercase(p)) == spec_is_supported_image_name(p),
        spec_is_supported_image_name(p) <==> exists|e: Seq<char>|
            path_extension(p) == Some(e) && {
                let l = ascii_lowercase(e);
                ||| l == seq!['j', 'p', 'g']
                ||| l == seq!['j', 'p', 'e', 'g']
                ||| l == seq!['p', 'n', 'g']
                ||| l == seq!['w', 'e', 'b', 'p']
                ||| l == seq!['g', 'i', 'f']
                ||| l == seq!['b', 'm', 'p']
                ||| l == seq!['t', 'i', 'f']
                ||| l == seq!['t', 'i', 'f', 'f']
            },
{
    lemma_lowercase_path_extension(p);
    match path_extension(p) {
        Some(e) => {
            lemma_lowercase_idempotent(e);
        },
        None => {},
    }
}


/// The decimal digit character for `d < 10`.
pub open spec fn digit_char(d: nat) -> char {
    (d + 48) as char
}

/// The decimal representation of `n`, without leading zeros.
pub open spec fn decimal(n: nat) -> Seq<char>
    decreases n,
{
    if n < 10 {
        seq![digit_char(n)]
    } else {
        decimal(n / 10).push(digit_char(n % 10))
    }
}

fn digit_text(d: u128) -> (r: &'static str)
    requires
        d < 10,
    ensures
        r@ == seq![digit_char(d as nat)],
{
    if d == 0 {
        proof { reveal_strlit("0"); }
        assert("0"@ =~= seq!['0']);
        "0"
    } else if d == 1 {
        proof { reveal_strlit("1"); }
        assert("1"@ =~= seq!['1']);
        "1"
    } else if d == 2 {
        proof { reveal_strlit("2"); }
        assert("2"@ =~= seq!['2']);
        "2"
    } else if d == 3 {
        proof { reveal_strlit("3"); }
        assert("3"@ =~= seq!['3']);
        "3"
    } else if d == 4 {
        proof { reveal_strlit("4"); }
        assert("4"@ =~= seq!['4']);
        "4"
    } else if d == 5 {
        proof { reveal_strlit("5"); }
        assert("5"@ =~= seq!['5']);
        "5"
    } else if d == 6 {
        proof { reveal_strlit("6"); }
        assert("6"@ =~= seq!['6']);
        "6"
    } else if d == 7 {
        proof { reveal_strlit("7"); }
        assert("7"@ =~= seq!['7']);
        "7"
    } else if d == 8 {
        proof { reveal_strlit("8"); }
        assert("8"@ =~= seq!['8']);
        "8"
    } else {
        proof { reveal_strlit("9"); }
        assert("9"@ =~= seq!['9']);
        "9"
    }
}

/// Appends the decimal representation of `n` to `s`.
pub fn push_decimal(s: &mut String, n: u128)
    ensures
        final(s)@ == old(s)@ + decimal(n as nat),
    decreases n,
{
    if n >= 10 {
        push_decimal(s, n / 10);
    }
    s.append(digit_text(n % 10));
    assert(s@ =~= old(s)@ + decimal(n as nat));
}

/// The decimal representation of `n`, as `n.to_string()` gives it.
pub fn decimal_string(n: usize) -> (r: String)
    ensures
        r@ == decimal(n as nat),
{
    let mut s = String::new();
    push_decimal(&mut s, n as u128);
    assert(s@ =~= decimal(n as nat));
    s
}

/// The decimal representation of `n`, as `n.to_string()` gives it.
pub fn decimal_string_wide(n: u128) -> (r: String)
    ensures
        r@ == decimal(n as nat),
{
    let mut s = String::new();
    push_decimal(&mut s, n);
    assert(s@ =~= decimal(n as nat));
    s
}

} // verus!
