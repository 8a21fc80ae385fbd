//! Markdown post-processing: cleaning OCR output, the table of contents,
//! the YAML front matter and the assembled document.
use vstd::prelude::*;
use crate::pdf::{opt_view, PdfInfo};
use crate::text::{
    chars_of, copy_range, decimal, ends_with, push_decimal, push_str, is_whitespace, is_ws, join, join_parts, lines, split_lines, starts_with,
    string_from_chars, string_views, to_string, trim, trim_chars, trim_end, trim_end_chars, trim_start,
    trim_start_chars, views,
};

verus! {

// ---------------------------------------------------------------- YAML quoting

/// The escape of one character inside a YAML double-quoted scalar.
pub open spec fn yaml_escape_char(c: char) -> Seq<char> {
    if c == '\\' {
        seq!['\\', '\\']
    } else if c == '"' {
        seq!['\\', '"']
    } else {
        seq![c]
    }
}

/// Every backslash and double quote of `s` preceded by a backslash.
pub open spec fn yaml_escape(s: Seq<char>) -> Seq<char>
    decreases s.len(),
{
    if s.len() == 0 {
        seq![]
    } else {
        yaml_escape_char(s[0]) + yaml_escape(s.drop_first())
    }
}

/// `s` as a YAML double-quoted scalar.
pub open spec fn spec_yaml_string(s: Seq<char>) -> Seq<char> {
    seq!['"'] + yaml_escape(s) + seq!['"']
}

/// The text that a YAML reader takes from the body of a double-quoted
/// scalar that uses only the escapes `\\` and `\"`.
pub open spec fn yaml_unescape(t: Seq<char>) -> Seq<char>
    decreases t.len(),
{
    if t.len() == 0 {
        seq![]
    } else if t[0] == '\\' && t.len() >= 2 {
        seq![t[1]] + yaml_unescape(t.skip(2))
    } else {
        seq![t[0]] + yaml_unescape(t.drop_first())
    }
}

proof fn lemma_yaml_escape_push(s: Seq<char>, c: char)
    ensures
        yaml_escape(s.push(c)) == yaml_escape(s) + yaml_escape_char(c),
    decreases s.len(),
{
    if s.len() == 0 {
        assert(s.push(c).drop_first() =~= Seq::<char>::empty());
        assert(yaml_escape(Seq::<char>::empty()) =~= Seq::<char>::empty());
        assert(s.push(c)[0] == c);
        assert(yaml_escape(s) =~= Seq::<char>::empty());
        assert(yaml_escape(s.push(c)) =~= yaml_escape_char(c));
    } else {
        lemma_yaml_escape_push(s.drop_first(), c);
        assert(s.push(c).drop_first() =~= s.drop_first().push(c));
        assert(yaml_escape(s.push(c)) =~= yaml_escape(s) + yaml_escape_char(c));
    }
}

/// Reading back the quoted scalar gives the original text: the body of
/// `yaml_string(s)`, unescaped, is `s`.
pub proof fn law_yaml_string_round_trip(s: Seq<char>)
    ensures
        spec_yaml_string(s).len() >= 2,
        spec_yaml_string(s)[0] == '"',
        spec_yaml_string(s).last() == '"',
        yaml_unescape(spec_yaml_string(s).subrange(1, spec_yaml_string(s).len() - 1)) == s,
{
    let q = spec_yaml_string(s);
    assert(q.subrange(1, q.len() - 1) =~= yaml_escape(s));
    lemma_unescape_escape(s);
}

proof fn lemma_unescape_escape(s: Seq<char>)
    ensures
        yaml_unescape(yaml_escape(s)) == s,
    decreases s.len(),
{
    if s.len() > 0 {
        lemma_unescape_escape(s.drop_first());
        let e = yaml_escape(s);
        let c = s[0];
        if c == '\\' || c == '"' {
            assert(e.skip(2) =~= yaml_escape(s.drop_first()));
        } else {
            assert(e.drop_first() =~= yaml_escape(s.drop_first()));
        }
        assert(yaml_unescape(e) =~= s);
    } else {
        assert(yaml_escape(s) =~= Seq::<char>::empty());
        assert(s =~= Seq::<char>::empty());
    }
}

fn yaml_chars(s: &[char]) -> (r: Vec<char>)
    ensures
        r@ == spec_yaml_string(s@),
{
    let mut r: Vec<char> = Vec::new();
    r.push('"');
    let mut i: usize = 0;
    while i < s.len()
        invariant
            i <= s@.len(),
            r@ == seq!['"'] + yaml_escape(s@.take(i as int)),
        decreases s@.len() - i,
    {
        let c = s[i];
        proof {
            assert(s@.take(i + 1) =~= s@.take(i as int).push(c));
            lemma_yaml_escape_push(s@.take(i as int), c);
        }
        if c == '\\' {
            r.push('\\');
            r.push('\\');
        } else if c == '"' {
            r.push('\\');
            r.push('"');
        } else {
            r.push(c);
        }
        proof {
            assert(r@ =~= seq!['"'] + yaml_escape(s@.take(i + 1)));
        }
        i = i + 1;
    }
    proof {
        assert(s@.take(i as int) =~= s@);
    }
    r.push('"');
    r
}

/// `value` as a YAML double-quoted scalar: backslashes and double quotes
/// escaped with a backslash, the whole in double quotes.
pub fn yaml_string(value: &str) -> (r: String)
    ensures
        r@ == spec_yaml_string(value@),
{
    let cs = chars_of(value);
    let q = yaml_chars(cs.as_slice());
    string_from_chars(q.as_slice())
}


// ---------------------------------------------------------------- slugs

/// An ASCII letter or digit (`char::is_ascii_alphanumeric`).
pub open spec fn is_ascii_alnum(c: char) -> bool {
    ('a' <= c && c <= 'z') || ('A' <= c && c <= 'Z') || ('0' <= c && c <= '9')
}

/// `s` with every ASCII letter and digit kept and every run of other
/// characters replaced by one `'-'`.
pub open spec fn slug_dashed(s: Seq<char>) -> Seq<char>
    decreases s.len(),
{
    if s.len() == 0 {
        seq![]
    } else {
        let r = slug_dashed(s.drop_last());
        let c = s.last();
        if is_ascii_alnum(c) {
            r.push(c)
        } else if r.len() > 0 && r.last() == '-' {
            r
        } else {
            r.push('-')
        }
    }
}

/// `s` without leading `'-'`.
pub open spec fn trim_dashes_start(s: Seq<char>) -> Seq<char>
    decreases s.len(),
{
    if s.len() > 0 && s[0] == '-' {
        trim_dashes_start(s.drop_first())
    } else {
        s
    }
}

/// `s` without trailing `'-'`.
pub open spec fn trim_dashes_end(s: Seq<char>) -> Seq<char>
    decreases s.len(),
{
    if s.len() > 0 && s.last() == '-' {
        trim_dashes_end(s.drop_last())
    } else {
        s
    }
}

/// The anchor slug of an already lower-cased heading title.
pub open spec fn spec_slug(lowered: Seq<char>) -> Seq<char> {
    trim_dashes_end(trim_dashes_start(slug_dashed(lowered)))
}

/// What `str::to_lowercase` returns for `s` (Unicode lower-case mapping).
pub uninterp spec fn spec_to_lowercase(s: Seq<char>) -> Seq<char>;

/// The anchor slug of a heading title, as GitHub-style links use it.
pub open spec fn spec_slugify(title: Seq<char>) -> Seq<char> {
    spec_slug(spec_to_lowercase(title))
}

/// An ASCII capital letter.
pub open spec fn is_ascii_upper(c: char) -> bool {
    'A' <= c && c <= 'Z'
}

/// Text made only of ASCII characters.
pub open spec fn is_ascii_text(s: Seq<char>) -> bool {
    forall|i: int| 0 <= i < s.len() ==> #[trigger] s[i] <= '\u{7f}'
}

/// No ASCII capital letter in `s`.
pub open spec fn no_ascii_upper(s: Seq<char>) -> bool {
    forall|i: int| 0 <= i < s.len() ==> !is_ascii_upper(#[trigger] s[i])
}

/// `c` with an ASCII capital made small.
pub open spec fn ascii_lower_char(c: char) -> char {
    if is_ascii_upper(c) {
        ((c as u32) + 32) as char
    } else {
        c
    }
}

/// `s` with every ASCII capital made small (`str::to_ascii_lowercase`).
pub open spec fn ascii_lowercase(s: Seq<char>) -> Seq<char> {
    s.map_values(|c: char| ascii_lower_char(c))
}

/// `str::to_lowercase`: the Unicode lower-case mapping of `s`. The mapping
/// is only named here; of it the contract states what the Unicode
/// lower-case mapping that std documents gives: no ASCII capital letter
/// is left, and ASCII text is mapped character by character, capitals to
/// small letters.
#[verifier::external_body]
fn to_lowercase(s: &str) -> (r: String)
    ensures
        r@ == spec_to_lowercase(s@),
        no_ascii_upper(r@),
        is_ascii_text(s@) ==> r@ == ascii_lowercase(s@),
{
    s.to_lowercase()
}

/// A slug: ASCII letters, digits and single dashes, with no dash at
/// either end.
pub open spec fn slug_shaped(t: Seq<char>) -> bool {
    &&& forall|i: int| 0 <= i < t.len() ==> is_ascii_alnum(#[trigger] t[i]) || t[i] == '-'
    &&& forall|i: int| 0 <= i < t.len() - 1 ==> !(#[trigger] t[i] == '-' && t[i + 1] == '-')
    &&& t.len() > 0 ==> t[0] != '-' && t.last() != '-'
}

proof fn lemma_slug_dashed_shape(s: Seq<char>)
    ensures
        forall|i: int| 0 <= i < slug_dashed(s).len() ==> is_ascii_alnum(#[trigger] slug_dashed(s)[i])
            || slug_dashed(s)[i] == '-',
        forall|i: int|
            0 <= i < slug_dashed(s).len() - 1 ==> !(#[trigger] slug_dashed(s)[i] == '-'
                && slug_dashed(s)[i + 1] == '-'),
    decreases s.len(),
{
    if s.len() > 0 {
        lemma_slug_dashed_shape(s.drop_last());
        let r = slug_dashed(s.drop_last());
        let t = slug_dashed(s);
        assert forall|i: int| 0 <= i < t.len() implies is_ascii_alnum(#[trigger] t[i]) || t[i]
            == '-' by {
            if i < r.len() {
                assert(t[i] == r[i]);
            }
        }
        assert forall|i: int| 0 <= i < t.len() - 1 implies !(#[trigger] t[i] == '-' && t[i + 1]
            == '-') by {
            assert(t[i] == r[i]);
            if i + 1 < r.len() {
                assert(t[i + 1] == r[i + 1]);
            }
        }
    } else {
        assert(slug_dashed(s) =~= Seq::<char>::empty());
    }
}

proof fn lemma_trim_dashes_start(s: Seq<char>) -> (k: int)
    ensures
        0 <= k <= s.len(),
        trim_dashes_start(s) == s.skip(k),
        trim_dashes_start(s).len() > 0 ==> trim_dashes_start(s)[0] != '-',
    decreases s.len(),
{
    if s.len() > 0 && s[0] == '-' {
        let k = lemma_trim_dashes_start(s.drop_first());
        assert(s.drop_first().skip(k) =~= s.skip(k + 1));
        k + 1
    } else {
        assert(s.skip(0) =~= s);
        0
    }
}

proof fn lemma_trim_dashes_end(s: Seq<char>) -> (j: int)
    ensures
        0 <= j <= s.len(),
        trim_dashes_end(s) == s.take(j),
        trim_dashes_end(s).len() > 0 ==> trim_dashes_end(s).last() != '-',
    decreases s.len(),
{
    if s.len() > 0 && s.last() == '-' {
        let j = lemma_trim_dashes_end(s.drop_last());
        assert(s.drop_last().take(j) =~= s.take(j));
        j
    } else {
        assert(s.take(s.len() as int) =~= s);
        s.len() as int
    }
}

/// Every slug is made of ASCII letters, digits and single dashes, and
/// neither starts nor ends with a dash.
pub proof fn law_slug_shape(lowered: Seq<char>)
    ensures
        slug_shaped(spec_slug(lowered)),
{
    let d = slug_dashed(lowered);
    lemma_slug_dashed_shape(lowered);
    let k = lemma_trim_dashes_start(d);
    let a = trim_dashes_start(d);
    let j = lemma_trim_dashes_end(a);
    let t = spec_slug(lowered);
    assert forall|i: int| 0 <= i < t.len() implies is_ascii_alnum(#[trigger] t[i]) || t[i] == '-' by {
        assert(t[i] == d[i + k]);
    }
    assert forall|i: int| 0 <= i < t.len() - 1 implies !(#[trigger] t[i] == '-' && t[i + 1] == '-') by {
        assert(t[i] == d[i + k]);
        assert(t[i + 1] == d[i + 1 + k]);
    }
    if t.len() > 0 {
        assert(t[0] == a[0]);
        assert(a.len() > 0);
    }
}

/// Every character of `w` is an ASCII letter or digit.
pub open spec fn all_alnum(w: Seq<char>) -> bool {
    forall|i: int| 0 <= i < w.len() ==> is_ascii_alnum(#[trigger] w[i])
}

/// No character of `s` is an ASCII letter or digit.
pub open spec fn no_alnum(s: Seq<char>) -> bool {
    forall|i: int| 0 <= i < s.len() ==> !is_ascii_alnum(#[trigger] s[i])
}

/// Every character of `s` is a dash.
pub open spec fn all_dashes(s: Seq<char>) -> bool {
    forall|i: int| 0 <= i < s.len() ==> #[trigger] s[i] == '-'
}

proof fn lemma_dashed_word(p: Seq<char>, q: Seq<char>)
    requires
        all_alnum(q),
    ensures
        slug_dashed(p + q) == slug_dashed(p) + q,
    decreases q.len(),
{
    if q.len() == 0 {
        assert(p + q =~= p);
        assert(slug_dashed(p) + q =~= slug_dashed(p));
    } else {
        let q2 = q.drop_last();
        assert(all_alnum(q2)) by {
            assert forall|i: int| 0 <= i < q2.len() implies is_ascii_alnum(#[trigger] q2[i]) by {
                assert(q2[i] == q[i]);
            }
        }
        lemma_dashed_word(p, q2);
        assert((p + q).drop_last() =~= p + q2);
        assert((p + q).last() == q[q.len() - 1]);
        assert(is_ascii_alnum(q[q.len() - 1]));
        assert(slug_dashed(p + q) == slug_dashed(p + q2).push(q.last()));
        assert((slug_dashed(p) + q2).push(q.last()) =~= slug_dashed(p) + q);
    }
}

proof fn lemma_dashed_separator(p: Seq<char>, sep: Seq<char>)
    requires
        sep.len() > 0,
        no_alnum(sep),
    ensures
        slug_dashed(p + sep) == (if slug_dashed(p).len() > 0 && slug_dashed(p).last() == '-' {
            slug_dashed(p)
        } else {
            slug_dashed(p).push('-')
        }),
    decreases sep.len(),
{
    let sep2 = sep.drop_last();
    let c = sep[sep.len() - 1];
    assert(!is_ascii_alnum(c));
    assert((p + sep).drop_last() =~= p + sep2);
    assert((p + sep).last() == c);
    if sep2.len() == 0 {
        assert(p + sep2 =~= p);
    } else {
        assert(no_alnum(sep2)) by {
            assert forall|i: int| 0 <= i < sep2.len() implies !is_ascii_alnum(#[trigger] sep2[i]) by {
                assert(sep2[i] == sep[i]);
            }
        }
        lemma_dashed_separator(p, sep2);
    }
}

proof fn lemma_dashed_separator_dashes(p: Seq<char>, sep: Seq<char>) -> (y: Seq<char>)
    requires
        no_alnum(sep),
    ensures
        all_dashes(y),
        slug_dashed(p + sep) == slug_dashed(p) + y,
    decreases sep.len(),
{
    if sep.len() == 0 {
        assert(p + sep =~= p);
        assert(slug_dashed(p) + seq![] =~= slug_dashed(p));
        seq![]
    } else {
        let sep2 = sep.drop_last();
        assert(no_alnum(sep2)) by {
            assert forall|i: int| 0 <= i < sep2.len() implies !is_ascii_alnum(#[trigger] sep2[i]) by {
                assert(sep2[i] == sep[i]);
            }
        }
        let y2 = lemma_dashed_separator_dashes(p, sep2);
        assert((p + sep).drop_last() =~= p + sep2);
        assert((p + sep).last() == sep[sep.len() - 1]);
        assert(!is_ascii_alnum(sep[sep.len() - 1]));
        let r = slug_dashed(p + sep2);
        if r.len() > 0 && r.last() == '-' {
            y2
        } else {
            assert((slug_dashed(p) + y2).push('-') =~= slug_dashed(p) + y2.push('-'));
            let y = y2.push('-');
            assert forall|i: int| 0 <= i < y.len() implies #[trigger] y[i] == '-' by {
                if i < y2.len() {
                    assert(y[i] == y2[i]);
                }
            }
            y
        }
    }
}

proof fn lemma_trim_leading_dashes(x: Seq<char>, z: Seq<char>)
    requires
        all_dashes(x),
    ensures
        trim_dashes_start(x + z) == trim_dashes_start(z),
    decreases x.len(),
{
    if x.len() > 0 {
        let x2 = x.drop_first();
        assert(all_dashes(x2)) by {
            assert forall|i: int| 0 <= i < x2.len() implies #[trigger] x2[i] == '-' by {
                assert(x2[i] == x[i + 1]);
            }
        }
        assert((x + z)[0] == x[0]);
        assert((x + z).drop_first() =~= x2 + z);
        lemma_trim_leading_dashes(x2, z);
    } else {
        assert(x + z =~= z);
    }
}

proof fn lemma_trim_trailing_dashes(z: Seq<char>, y: Seq<char>)
    requires
        all_dashes(y),
    ensures
        trim_dashes_end(z + y) == trim_dashes_end(z),
    decreases y.len(),
{
    if y.len() > 0 {
        let y2 = y.drop_last();
        assert(all_dashes(y2)) by {
            assert forall|i: int| 0 <= i < y2.len() implies #[trigger] y2[i] == '-' by {
                assert(y2[i] == y[i]);
            }
        }
        assert((z + y).last() == y[y.len() - 1]);
        assert((z + y).drop_last() =~= z + y2);
        lemma_trim_trailing_dashes(z, y2);
    } else {
        assert(z + y =~= z);
    }
}

/// Every character that is not an ASCII letter or digit separates words:
/// two words joined by any non-empty run of such characters give the two
/// words joined by one dash.
pub proof fn law_slug_separates_words(first: Seq<char>, separator: Seq<char>, second: Seq<char>)
    requires
        first.len() > 0,
        second.len() > 0,
        all_alnum(first),
        all_alnum(second),
        separator.len() > 0,
        no_alnum(separator),
    ensures
        spec_slug(first + separator + second) == first + seq!['-'] + second,
{
    let e = Seq::<char>::empty();
    assert(slug_dashed(e) =~= e);
    lemma_dashed_word(e, first);
    assert(e + first =~= first);
    assert(slug_dashed(first) =~= first);
    assert(first.last() == first[first.len() - 1]);
    lemma_dashed_separator(first, separator);
    lemma_dashed_word(first + separator, second);
    let d = first + seq!['-'] + second;
    assert(slug_dashed(first + separator + second) =~= d);
    assert(d[0] == first[0]);
    assert(trim_dashes_start(d) == d);
    assert(d.last() == second[second.len() - 1]);
    assert(trim_dashes_end(d) == d);
}

/// Characters that are not ASCII letters or digits before and after a word
/// leave no trace in its slug: the slug of a word of letters and digits
/// with any such characters around it is the word.
pub proof fn law_slug_trims_separators(leading: Seq<char>, word: Seq<char>, trailing: Seq<char>)
    requires
        all_alnum(word),
        no_alnum(leading),
        no_alnum(trailing),
    ensures
        spec_slug(leading + word + trailing) == word,
{
    let e = Seq::<char>::empty();
    assert(slug_dashed(e) =~= e);
    let x = lemma_dashed_separator_dashes(e, leading);
    assert(e + leading =~= leading);
    assert(slug_dashed(leading) =~= x);
    lemma_dashed_word(leading, word);
    let y = lemma_dashed_separator_dashes(leading + word, trailing);
    let d = x + word + y;
    assert(slug_dashed(leading + word + trailing) =~= d);
    lemma_trim_leading_dashes(x, word + y);
    assert(x + (word + y) =~= d);
    if word.len() > 0 {
        assert((word + y)[0] == word[0]);
        assert(trim_dashes_start(word + y) == word + y);
        lemma_trim_trailing_dashes(word, y);
        assert(word.last() == word[word.len() - 1]);
        assert(trim_dashes_end(word) == word);
    } else {
        assert(word + y =~= y);
        lemma_trim_leading_dashes(y, e);
        assert(y + e =~= y);
        assert(trim_dashes_start(e) == e);
        assert(trim_dashes_end(e) == e);
    }
}

/// The slug of an already lower-cased title: ASCII letters and digits kept,
/// each run of other characters turned into one dash, and dashes at either
/// end removed.
pub fn slug_from_lowercase(lowered: &str) -> (r: String)
    ensures
        r@ == spec_slug(lowered@),
{
    let cs = chars_of(lowered);
    let mut slug: Vec<char> = Vec::new();
    let mut previous_dash = false;
    let mut i: usize = 0;
    while i < cs.len()
        invariant
            i <= cs@.len(),
            cs@ == lowered@,
            slug@ == slug_dashed(cs@.take(i as int)),
            previous_dash == (slug@.len() > 0 && slug@.last() == '-'),
        decreases cs@.len() - i,
    {
        let c = cs[i];
        proof {
            assert(cs@.take(i + 1).drop_last() =~= cs@.take(i as int));
        }
        if ('a' <= c && c <= 'z') || ('A' <= c && c <= 'Z') || ('0' <= c && c <= '9') {
            slug.push(c);
            previous_dash = false;
        } else if !previous_dash {
            slug.push('-');
            previous_dash = true;
        }
        i = i + 1;
    }
    proof {
        assert(cs@.take(i as int) =~= cs@);
    }
    let mut lo: usize = 0;
    let ghost d = slug@;
    proof {
        assert(d.skip(0) =~= d);
    }
    while lo < slug.len() && slug[lo] == '-'
        invariant
            lo <= slug@.len(),
            slug@ == d,
            trim_dashes_start(d) == trim_dashes_start(d.skip(lo as int)),
        decreases slug@.len() - lo,
    {
        proof {
            assert(d.skip(lo as int).drop_first() =~= d.skip(lo + 1));
        }
        lo = lo + 1;
    }
    let mut hi: usize = slug.len();
    let ghost a = d.skip(lo as int);
    proof {
        assert(a.take(a.len() as int) =~= a);
    }
    while hi > lo && slug[hi - 1] == '-'
        invariant
            lo <= hi <= slug@.len(),
            slug@ == d,
            a == d.skip(lo as int),
            trim_dashes_end(a) == trim_dashes_end(a.take(hi - lo)),
        decreases hi,
    {
        proof {
            assert(a.take(hi - lo).drop_last() =~= a.take(hi - lo - 1));
            assert(a.take(hi - lo).last() == d[hi - 1]);
        }
        hi = hi - 1;
    }
    proof {
        let t = a.take(hi - lo);
        assert(t =~= d.subrange(lo as int, hi as int));
        if t.len() > 0 {
            assert(t.last() == d[hi - 1]);
        }
    }
    let out = copy_range(slug.as_slice(), lo, hi);
    string_from_chars(out.as_slice())
}

/// What [`slugify`] gives for `input`: the slug of its lower-case form, a
/// slug in shape and without capitals, and for ASCII input the slug of its
/// ASCII lower-case form.
pub open spec fn slugify_post(input: Seq<char>, r: Seq<char>) -> bool {
    &&& r == spec_slugify(input)
    &&& slug_shaped(r)
    &&& no_ascii_upper(r)
    &&& is_ascii_text(input) ==> r == spec_slug(ascii_lowercase(input))
}

proof fn lemma_slug_dashed_no_upper(s: Seq<char>)
    requires
        no_ascii_upper(s),
    ensures
        no_ascii_upper(slug_dashed(s)),
    decreases s.len(),
{
    if s.len() > 0 {
        let p = s.drop_last();
        assert(no_ascii_upper(p)) by {
            assert forall|i: int| 0 <= i < p.len() implies !is_ascii_upper(#[trigger] p[i]) by {
                assert(p[i] == s[i]);
            }
        }
        lemma_slug_dashed_no_upper(p);
        let r = slug_dashed(p);
        let t = slug_dashed(s);
        assert(!is_ascii_upper(s[s.len() - 1]));
        assert forall|i: int| 0 <= i < t.len() implies !is_ascii_upper(#[trigger] t[i]) by {
            if i < r.len() {
                assert(t[i] == r[i]);
            }
        }
    } else {
        assert(slug_dashed(s) =~= Seq::<char>::empty());
    }
}

proof fn lemma_slug_no_upper(lowered: Seq<char>)
    requires
        no_ascii_upper(lowered),
    ensures
        no_ascii_upper(spec_slug(lowered)),
{
    let d = slug_dashed(lowered);
    lemma_slug_dashed_no_upper(lowered);
    let k = lemma_trim_dashes_start(d);
    let a = trim_dashes_start(d);
    let j = lemma_trim_dashes_end(a);
    let t = spec_slug(lowered);
    assert forall|i: int| 0 <= i < t.len() implies !is_ascii_upper(#[trigger] t[i]) by {
        assert(t[i] == d[i + k]);
    }
}

proof fn lemma_slug_dashed_fixed(t: Seq<char>)
    requires
        forall|i: int| 0 <= i < t.len() ==> is_ascii_alnum(#[trigger] t[i]) || t[i] == '-',
        forall|i: int| 0 <= i < t.len() - 1 ==> !(#[trigger] t[i] == '-' && t[i + 1] == '-'),
    ensures
        slug_dashed(t) == t,
    decreases t.len(),
{
    if t.len() > 0 {
        let p = t.drop_last();
        assert forall|i: int| 0 <= i < p.len() implies is_ascii_alnum(#[trigger] p[i]) || p[i] == '-' by {
            assert(p[i] == t[i]);
        }
        assert forall|i: int| 0 <= i < p.len() - 1 implies !(#[trigger] p[i] == '-' && p[i + 1] == '-') by {
            assert(p[i] == t[i]);
            assert(p[i + 1] == t[i + 1]);
        }
        lemma_slug_dashed_fixed(p);
        if t.len() >= 2 {
            assert(!(t[t.len() - 2] == '-' && t[t.len() - 1] == '-'));
            assert(p.last() == t[t.len() - 2]);
        }
        assert(t =~= p.push(t.last()));
    } else {
        assert(t =~= Seq::<char>::empty());
    }
}

proof fn lemma_ascii_lowercase_fixed(t: Seq<char>)
    requires
        no_ascii_upper(t),
    ensures
        ascii_lowercase(t) == t,
{
    assert forall|i: int| 0 <= i < t.len() implies ascii_lowercase(t)[i] == t[i] by {
        assert(!is_ascii_upper(t[i]));
    }
    assert(ascii_lowercase(t) =~= t);
}

/// A slug is its own slug: applying [`slugify`] to its own result gives the
/// same result again.
pub proof fn law_slugify_idempotent(input: Seq<char>, first: Seq<char>, second: Seq<char>)
    requires
        slugify_post(input, first),
        slugify_post(first, second),
    ensures
        second == first,
{
    assert(is_ascii_text(first)) by {
        assert forall|i: int| 0 <= i < first.len() implies #[trigger] first[i] <= '\u{7f}' by {
            assert(is_ascii_alnum(first[i]) || first[i] == '-');
        }
    }
    lemma_ascii_lowercase_fixed(first);
    lemma_slug_dashed_fixed(first);
    if first.len() > 0 {
        assert(first[0] != '-');
        assert(first.last() != '-');
    }
    assert(trim_dashes_start(first) == first);
    assert(trim_dashes_end(first) == first);
}

/// The anchor slug of a heading title: lower-cased, then reduced by
/// [`slug_from_lowercase`] (see [`slugify_post`]).
pub fn slugify(input: &str) -> (r: String)
    ensures
        slugify_post(input@, r@),
{
    let lowered = to_lowercase(input);
    let r = slug_from_lowercase(lowered.as_str());
    proof {
        law_slug_shape(lowered@);
        lemma_slug_no_upper(lowered@);
    }
    r
}


// ---------------------------------------------------------------- compact bullets

/// The bullet marker `"- "`.
pub open spec fn dash_space() -> Seq<char> {
    seq!['-', ' ']
}

/// `s` begins with the bullet marker.
pub open spec fn at_marker(s: Seq<char>) -> bool {
    s.len() >= 2 && s[0] == '-' && s[1] == ' '
}

/// The pieces of `cur + rest` between occurrences of `"- "`, where `cur`
/// is the part of the current piece read so far (`str::split("- ")`).
pub open spec fn split_from(cur: Seq<char>, rest: Seq<char>) -> Seq<Seq<char>>
    decreases rest.len(),
{
    if rest.len() == 0 {
        seq![cur]
    } else if at_marker(rest) {
        seq![cur] + split_from(seq![], rest.skip(2))
    } else {
        split_from(cur.push(rest[0]), rest.drop_first())
    }
}

/// The pieces of `s` between occurrences of `"- "`; one more than the
/// number of occurrences.
pub open spec fn split_on(s: Seq<char>) -> Seq<Seq<char>> {
    split_from(seq![], s)
}

/// Each piece with blank-only pieces left out, trimmed and marked as a
/// bullet again.
pub open spec fn bullet_items(pieces: Seq<Seq<char>>) -> Seq<Seq<char>>
    decreases pieces.len(),
{
    if pieces.len() == 0 {
        seq![]
    } else {
        let init = bullet_items(pieces.drop_last());
        let t = trim(pieces.last());
        if t.len() > 0 {
            init.push(dash_space() + t)
        } else {
            init
        }
    }
}

/// The lines that a line of several bullets written one after the other
/// becomes: a line whose text, leading blanks removed, starts with `"- "`
/// and holds it at least twice is cut at each `"- "` into one bullet per
/// non-blank piece; any other line stays as it is.
pub open spec fn spec_compact_bullets(line: Seq<char>) -> Seq<Seq<char>> {
    let t = trim_start(line);
    if !starts_with(t, dash_space()) || split_on(t).len() < 3 {
        seq![line]
    } else {
        bullet_items(split_on(t))
    }
}

/// No occurrence of the bullet marker `"- "` in `s`.
pub open spec fn no_marker(s: Seq<char>) -> bool {
    forall|i: int| 0 <= i < s.len() - 1 ==> !(#[trigger] s[i] == '-' && s[i + 1] == ' ')
}

proof fn lemma_split_pieces(cur: Seq<char>, rest: Seq<char>)
    requires
        no_marker(cur),
        cur.len() > 0 && cur.last() == '-' ==> !(rest.len() > 0 && rest[0] == ' '),
    ensures
        forall|j: int| 0 <= j < split_from(cur, rest).len() ==> no_marker(#[trigger] split_from(cur, rest)[j]),
    decreases rest.len(),
{
    let r = split_from(cur, rest);
    if rest.len() == 0 {
        assert(r =~= seq![cur]);
        assert forall|j: int| 0 <= j < r.len() implies no_marker(#[trigger] r[j]) by {
            assert(r[j] == cur);
        }
    } else if at_marker(rest) {
        let e = Seq::<char>::empty();
        lemma_split_pieces(e, rest.skip(2));
        let tail = split_from(e, rest.skip(2));
        assert(r == seq![cur] + tail);
        assert forall|j: int| 0 <= j < r.len() implies no_marker(#[trigger] r[j]) by {
            if j > 0 {
                assert(r[j] == tail[j - 1]);
            } else {
                assert(r[j] == cur);
            }
        }
    } else {
        let c = cur.push(rest[0]);
        assert forall|i: int| 0 <= i < c.len() - 1 implies !(#[trigger] c[i] == '-' && c[i + 1] == ' ') by {
            if i + 1 < cur.len() {
                assert(c[i] == cur[i] && c[i + 1] == cur[i + 1]);
            } else {
                assert(c[i] == cur.last());
            }
        }
        if rest[0] == '-' && rest.len() >= 2 {
            assert(rest.drop_first()[0] == rest[1]);
        }
        lemma_split_pieces(c, rest.drop_first());
        assert(r == split_from(c, rest.drop_first()));
    }
}

proof fn lemma_split_single(cur: Seq<char>, rest: Seq<char>)
    requires
        no_marker(cur + rest),
    ensures
        split_from(cur, rest) == seq![cur + rest],
    decreases rest.len(),
{
    if rest.len() == 0 {
        assert(cur + rest =~= cur);
    } else {
        let w = cur + rest;
        if at_marker(rest) {
            assert(w[cur.len() as int] == rest[0] && w[cur.len() as int + 1] == rest[1]);
        }
        assert(cur.push(rest[0]) + rest.drop_first() =~= w);
        lemma_split_single(cur.push(rest[0]), rest.drop_first());
    }
}

proof fn lemma_trim_start_shape(s: Seq<char>) -> (k: int)
    ensures
        0 <= k <= s.len(),
        trim_start(s) == s.skip(k),
        trim_start(s).len() > 0 ==> !is_ws(trim_start(s)[0]),
    decreases s.len(),
{
    if s.len() > 0 && is_ws(s[0]) {
        let k = lemma_trim_start_shape(s.drop_first());
        assert(s.drop_first().skip(k) =~= s.skip(k + 1));
        k + 1
    } else {
        assert(s.skip(0) =~= s);
        0
    }
}

proof fn lemma_trim_end_shape(s: Seq<char>) -> (j: int)
    ensures
        0 <= j <= s.len(),
        trim_end(s) == s.take(j),
        trim_end(s).len() > 0 ==> !is_ws(trim_end(s).last()),
    decreases s.len(),
{
    if s.len() > 0 && is_ws(s.last()) {
        let j = lemma_trim_end_shape(s.drop_last());
        assert(s.drop_last().take(j) =~= s.take(j));
        j
    } else {
        assert(s.take(s.len() as int) =~= s);
        s.len() as int
    }
}

/// `trim(s)` is a stretch of `s` that starts and ends with a non-blank.
proof fn lemma_trim_range(s: Seq<char>) -> (r: (int, int))
    ensures
        0 <= r.0 <= r.1 <= s.len(),
        trim(s) == s.subrange(r.0, r.1),
        trim(s).len() > 0 ==> !is_ws(trim(s)[0]) && !is_ws(trim(s).last()),
{
    let k = lemma_trim_start_shape(s);
    let a = trim_start(s);
    let j = lemma_trim_end_shape(a);
    assert(trim(s) =~= s.subrange(k, k + j));
    if trim(s).len() > 0 {
        assert(trim(s)[0] == a[0]);
    }
    (k, k + j)
}

proof fn lemma_bullet_item(pieces: Seq<Seq<char>>, i: int) -> (j: int)
    requires
        0 <= i < bullet_items(pieces).len(),
    ensures
        0 <= j < pieces.len(),
        bullet_items(pieces)[i] == dash_space() + trim(pieces[j]),
        trim(pieces[j]).len() > 0,
    decreases pieces.len(),
{
    let init = bullet_items(pieces.drop_last());
    if i < init.len() {
        let j = lemma_bullet_item(pieces.drop_last(), i);
        assert(pieces.drop_last()[j] == pieces[j]);
        j
    } else {
        pieces.len() - 1
    }
}

/// Normalising compact bullets reaches a fixed point at once: each line
/// that [`normalize_compact_bullets`] gives, normalised again, is left as
/// that one line.
pub proof fn law_compact_bullets_fixed_point(line: Seq<char>, i: int)
    requires
        0 <= i < spec_compact_bullets(line).len(),
    ensures
        spec_compact_bullets(spec_compact_bullets(line)[i]) == seq![spec_compact_bullets(line)[i]],
{
    let t = trim_start(line);
    if !starts_with(t, dash_space()) || split_on(t).len() < 3 {
        assert(spec_compact_bullets(line)[i] == line);
    } else {
        let pieces = split_on(t);
        let j = lemma_bullet_item(pieces, i);
        lemma_split_pieces(Seq::<char>::empty(), t);
        let piece = pieces[j];
        assert(no_marker(piece));
        let (a, b) = lemma_trim_range(piece);
        let u = trim(piece);
        assert(no_marker(u)) by {
            assert forall|k: int| 0 <= k < u.len() - 1 implies !(#[trigger] u[k] == '-' && u[k + 1] == ' ') by {
                assert(u[k] == piece[a + k] && u[k + 1] == piece[a + k + 1]);
            }
        }
        let e = dash_space() + u;
        assert(spec_compact_bullets(line)[i] == e);
        assert(!is_ws(e[0]));
        assert(trim_start(e) == e);
        assert(e.take(2) =~= dash_space());
        assert(e.skip(2) =~= u);
        assert(at_marker(e));
        lemma_split_single(Seq::<char>::empty(), u);
        assert(Seq::<char>::empty() + u =~= u);
        assert(split_on(e) == seq![Seq::<char>::empty()] + split_from(Seq::<char>::empty(), e.skip(2)));
        assert(split_on(e).len() == 2);
    }
}

fn split_on_dash_space(s: &[char]) -> (r: Vec<Vec<char>>)
    ensures
        views(r@) == split_on(s@),
{
    let mut r: Vec<Vec<char>> = Vec::new();
    let mut cur: Vec<char> = Vec::new();
    let mut i: usize = 0;
    proof {
        assert(s@.skip(0) =~= s@);
        assert(views(r@) + split_from(cur@, s@.skip(0)) =~= split_on(s@));
    }
    while i < s.len()
        invariant
            i <= s@.len(),
            views(r@) + split_from(cur@, s@.skip(i as int)) == split_on(s@),
        decreases s@.len() - i,
    {
        let ghost rest = s@.skip(i as int);
        if i + 1 < s.len() && s[i] == '-' && s[i + 1] == ' ' {
            let ghost old_r = views(r@);
            proof {
                assert(rest.skip(2) =~= s@.skip(i + 2));
                assert(old_r + (seq![cur@] + split_from(seq![], rest.skip(2))) =~= old_r.push(
                    cur@,
                ) + split_from(seq![], rest.skip(2)));
            }
            let piece = copy_range(cur.as_slice(), 0, cur.len());
            proof {
                assert(piece@ =~= cur@);
            }
            r.push(piece);
            proof {
                assert(views(r@) =~= old_r.push(cur@));
            }
            cur = Vec::new();
            proof {
                assert(cur@ =~= Seq::<char>::empty());
            }
            i = i + 2;
        } else {
            proof {
                assert(rest.drop_first() =~= s@.skip(i + 1));
            }
            cur.push(s[i]);
            i = i + 1;
        }
    }
    let ghost old_r = views(r@);
    r.push(cur);
    proof {
        assert(views(r@) =~= old_r + seq![r@.last()@]);
    }
    r
}

fn bullet_lines(pieces: &Vec<Vec<char>>) -> (r: Vec<String>)
    ensures
        string_views(r@) == bullet_items(views(pieces@)),
{
    let mut r: Vec<String> = Vec::new();
    let mut i: usize = 0;
    while i < pieces.len()
        invariant
            i <= pieces@.len(),
            string_views(r@) == bullet_items(views(pieces@).take(i as int)),
        decreases pieces@.len() - i,
    {
        let ghost pv = views(pieces@);
        proof {
            assert(pv.take(i + 1).drop_last() =~= pv.take(i as int));
            assert(pv.take(i + 1).last() == pieces@[i as int]@);
        }
        let t = trim_chars(pieces[i].as_slice());
        if t.len() > 0 {
            let mut item: Vec<char> = Vec::new();
            item.push('-');
            item.push(' ');
            item.extend_from_slice(t.as_slice());
            let ghost old_r = string_views(r@);
            r.push(string_from_chars(item.as_slice()));
            proof {
                assert(item@ =~= dash_space() + t@);
                assert(string_views(r@) =~= old_r.push(item@));
            }
        }
        i = i + 1;
    }
    proof {
        assert(views(pieces@).take(i as int) =~= views(pieces@));
    }
    r
}

/// The lines that `line` becomes (see [`spec_compact_bullets`]).
pub fn normalize_compact_bullets(line: &str) -> (r: Vec<String>)
    ensures
        string_views(r@) == spec_compact_bullets(line@),
{
    let cs = chars_of(line);
    let t = trim_start_chars(cs.as_slice());
    let qualifies = t.len() >= 2 && t[0] == '-' && t[1] == ' ';
    proof {
        if qualifies {
            assert(t@.take(2) =~= dash_space());
        } else if t@.len() >= 2 {
            if t@.take(2) == dash_space() {
                assert(t@.take(2)[0] == t@[0]);
                assert(t@.take(2)[1] == t@[1]);
            }
        }
    }
    if qualifies {
        let pieces = split_on_dash_space(t.as_slice());
        if pieces.len() >= 3 {
            return bullet_lines(&pieces);
        }
    }
    let mut r: Vec<String> = Vec::new();
    r.push(to_string(line));
    proof {
        assert(string_views(r@) =~= seq![line@]);
    }
    r
}

// ---------------------------------------------------------------- cleaning

/// The kinds of character runs that the cleaning rules read.
pub enum RunKind {
    /// ASCII letters and `'_'`.
    Letters,
    /// Anything but `']'`.
    NotClose,
    /// Blanks in the sense of [`is_ws`].
    Blank,
    /// `'\n'`.
    Newline,
    /// `'#'`.
    Hash,
}

/// `c` belongs to a run of `kind`.
pub open spec fn in_run(kind: RunKind, c: char) -> bool {
    match kind {
        RunKind::Letters => ('a' <= c && c <= 'z') || ('A' <= c && c <= 'Z') || c == '_',
        RunKind::NotClose => c != ']',
        RunKind::Blank => is_ws(c),
        RunKind::Newline => c == '\n',
        RunKind::Hash => c == '#',
    }
}

/// The length of the longest run of `kind` in `s` that starts at `i`.
pub open spec fn run_len(s: Seq<char>, i: int, kind: RunKind) -> nat
    decreases s.len() - i,
{
    if 0 <= i < s.len() && in_run(kind, s[i]) {
        1 + run_len(s, i + 1, kind)
    } else {
        0
    }
}

/// A run ends inside `s`, holds only characters of its kind and is not
/// followed by one.
pub proof fn lemma_run_len_bound(s: Seq<char>, i: int, kind: RunKind)
    requires
        0 <= i <= s.len(),
    ensures
        i + run_len(s, i, kind) <= s.len(),
        forall|k: int| i <= k < i + run_len(s, i, kind) ==> in_run(kind, #[trigger] s[k]),
        i + run_len(s, i, kind) < s.len() ==> !in_run(kind, s[i + run_len(s, i, kind)]),
    decreases s.len() - i,
{
    if i < s.len() && in_run(kind, s[i]) {
        lemma_run_len_bound(s, i + 1, kind);
    }
}

/// The position of the last `'\n'` among the `n` characters of `s` from `i`.
pub open spec fn last_newline(s: Seq<char>, i: int, n: nat) -> Option<int>
    decreases n,
{
    if n == 0 {
        None
    } else if s[i + n - 1] == '\n' {
        Some(i + n - 1)
    } else {
        last_newline(s, i, (n - 1) as nat)
    }
}

/// Where [`last_newline`] finds one, it lies in the stretch and is a `'\n'`.
pub proof fn lemma_last_newline(s: Seq<char>, i: int, n: nat)
    ensures
        last_newline(s, i, n) matches Some(k) ==> i <= k < i + n && s[k] == '\n',
    decreases n,
{
    if n > 0 && s[i + n - 1] != '\n' {
        lemma_last_newline(s, i, (n - 1) as nat);
    }
}

/// The length of the grounding artefact that starts at `i`, if one does:
/// a name of ASCII letters and `'_'`, then `"[["`, a non-empty text
/// without `']'`, and `"]]"`; then the blanks up to the end of the text,
/// or, where text follows, up to and with the last line break among
/// them, which must be there (the pattern `[A-Za-z_]+\[\[[^\]]+\]\]\s*$\n?`).
pub open spec fn artifact_len(s: Seq<char>, i: int) -> Option<nat> {
    let a = run_len(s, i, RunKind::Letters);
    let o = i + a;
    if a == 0 || !(o + 1 < s.len() && s[o] == '[' && s[o + 1] == '[') {
        None
    } else {
        let b = run_len(s, o + 2, RunKind::NotClose);
        let c = o + 2 + b;
        if b == 0 || !(c + 1 < s.len() && s[c] == ']' && s[c + 1] == ']') {
            None
        } else {
            let e = c + 2;
            let w = run_len(s, e, RunKind::Blank);
            if e + w == s.len() {
                Some((e + w - i) as nat)
            } else {
                match last_newline(s, e, w) {
                    Some(k) => Some((k + 1 - i) as nat),
                    None => None,
                }
            }
        }
    }
}

/// An artefact is not empty and ends inside the text.
pub proof fn lemma_artifact_len_bound(s: Seq<char>, i: int)
    requires
        0 <= i < s.len(),
    ensures
        artifact_len(s, i) matches Some(k) ==> 0 < k && i + k <= s.len(),
{
    let a = run_len(s, i, RunKind::Letters);
    lemma_run_len_bound(s, i, RunKind::Letters);
    let o = i + a;
    if a > 0 && o + 1 < s.len() && s[o] == '[' && s[o + 1] == '[' {
        let b = run_len(s, o + 2, RunKind::NotClose);
        lemma_run_len_bound(s, o + 2, RunKind::NotClose);
        let c = o + 2 + b;
        if b > 0 && c + 1 < s.len() && s[c] == ']' && s[c + 1] == ']' {
            let e = c + 2;
            lemma_run_len_bound(s, e, RunKind::Blank);
            let w = run_len(s, e, RunKind::Blank);
            lemma_last_newline(s, e, w);
        }
    }
}

/// The text from `i` on with every grounding artefact that starts a line
/// removed, matches taken from left to right.
pub open spec fn strip_artifacts_from(s: Seq<char>, i: int) -> Seq<char>
    decreases s.len() - i,
{
    if i < 0 || i >= s.len() {
        seq![]
    } else if (i == 0 || s[i - 1] == '\n') && artifact_len(s, i) is Some {
        proof {
            lemma_artifact_len_bound(s, i);
        }
        strip_artifacts_from(s, i + artifact_len(s, i)->0)
    } else {
        seq![s[i]] + strip_artifacts_from(s, i + 1)
    }
}

/// `s` without the grounding artefacts that the model writes on lines of
/// their own, such as `text[[1, 2, 3, 4]]`.
pub open spec fn strip_artifacts(s: Seq<char>) -> Seq<char> {
    strip_artifacts_from(s, 0)
}

/// `s` with each `"\r\n"` replaced by `'\n'`, from left to right.
pub open spec fn crlf_to_lf(s: Seq<char>) -> Seq<char>
    decreases s.len(),
{
    if s.len() == 0 {
        seq![]
    } else if s.len() >= 2 && s[0] == '\r' && s[1] == '\n' {
        seq!['\n'] + crlf_to_lf(s.skip(2))
    } else {
        seq![s[0]] + crlf_to_lf(s.drop_first())
    }
}

/// A code fence.
pub open spec fn fence() -> Seq<char> {
    "```"@
}

/// The language tag of a Markdown code fence.
pub open spec fn markdown_word() -> Seq<char> {
    "markdown"@
}

/// `s` without an opening code fence at its start: leading blanks,
/// the fence, an optional `markdown` tag and the blanks after it.
pub open spec fn strip_opening_fence(s: Seq<char>) -> Seq<char> {
    let t = trim_start(s);
    if starts_with(t, fence()) {
        let u = t.skip(3);
        let v = if starts_with(u, markdown_word()) {
            u.skip(8)
        } else {
            u
        };
        trim_start(v)
    } else {
        s
    }
}

/// `s` without a closing code fence at its end, with the blanks around it.
pub open spec fn strip_closing_fence(s: Seq<char>) -> Seq<char> {
    let t = trim_end(s);
    if ends_with(t, fence()) {
        trim_end(t.take(t.len() - 3))
    } else {
        s
    }
}

/// The lines with each line of compact bullets split (see
/// [`spec_compact_bullets`]).
pub open spec fn flat_bullets(ls: Seq<Seq<char>>) -> Seq<Seq<char>>
    decreases ls.len(),
{
    if ls.len() == 0 {
        seq![]
    } else {
        flat_bullets(ls.drop_last()) + spec_compact_bullets(ls.last())
    }
}

/// The text from `i` on with each run of three or more line breaks
/// replaced by two.
pub open spec fn collapse_from(s: Seq<char>, i: int) -> Seq<char>
    decreases s.len() - i,
{
    if i < 0 || i >= s.len() {
        seq![]
    } else if s[i] == '\n' {
        let n = run_len(s, i, RunKind::Newline);
        proof {
            lemma_run_len_bound(s, i, RunKind::Newline);
        }
        (if n >= 3 {
            seq!['\n', '\n']
        } else {
            s.subrange(i, i + n)
        }) + collapse_from(s, i + n)
    } else {
        seq![s[i]] + collapse_from(s, i + 1)
    }
}

/// `s` with each run of three or more line breaks replaced by two.
pub open spec fn collapse_blank_lines(s: Seq<char>) -> Seq<char> {
    collapse_from(s, 0)
}

/// The cleaned form of a page's OCR output: line breaks normalised, an
/// enclosing code fence removed, grounding artefacts removed, compact
/// bullets split, the whole trimmed, and blank-line runs reduced to one
/// blank line.
pub open spec fn spec_clean_markdown(raw: Seq<char>) -> Seq<char> {
    let unfenced = strip_closing_fence(strip_opening_fence(crlf_to_lf(raw)));
    let bulleted = join(flat_bullets(lines(strip_artifacts(unfenced))), seq!['\n']);
    collapse_blank_lines(trim(bulleted))
}

/// No three line breaks in a row in `s`: at most one blank line between
/// two lines of text.
pub open spec fn no_blank_line_runs(s: Seq<char>) -> bool {
    forall|i: int| 0 <= i < s.len() - 2 ==> !(#[trigger] s[i] == '\n' && s[i + 1] == '\n' && s[i + 2] == '\n')
}

proof fn lemma_collapse(s: Seq<char>, i: int)
    requires
        0 <= i <= s.len(),
    ensures
        no_blank_line_runs(collapse_from(s, i)),
        collapse_from(s, i).len() > 0 <==> i < s.len(),
        i < s.len() && s[i] != '\n' ==> collapse_from(s, i)[0] == s[i],
        i < s.len() && s.last() != '\n' ==> collapse_from(s, i).last() == s.last(),
    decreases s.len() - i,
{
    if i < s.len() {
        let r = collapse_from(s, i);
        if s[i] == '\n' {
            let n = run_len(s, i, RunKind::Newline);
            lemma_run_len_bound(s, i, RunKind::Newline);
            lemma_collapse(s, i + n);
            let block = if n >= 3 {
                seq!['\n', '\n']
            } else {
                s.subrange(i, i + n)
            };
            let rest = collapse_from(s, i + n);
            assert(r == block + rest);
            assert(1 <= block.len() <= 2);
            assert forall|k: int| 0 <= k < block.len() implies block[k] == '\n' by {
                if n < 3 {
                    assert(block[k] == s[i + k]);
                }
            }
            assert forall|k: int| 0 <= k < r.len() - 2 implies !(#[trigger] r[k] == '\n' && r[k + 1]
                == '\n' && r[k + 2] == '\n') by {
                if k >= block.len() {
                    assert(r[k] == rest[k - block.len()]);
                    assert(r[k + 1] == rest[k + 1 - block.len()]);
                    assert(r[k + 2] == rest[k + 2 - block.len()]);
                } else {
                    assert(i + n < s.len());
                    assert(rest[0] == s[i + n]);
                    assert(r[block.len() as int] == rest[0]);
                }
            }
            if s.last() != '\n' {
                if i + n == s.len() {
                    assert(in_run(RunKind::Newline, s[s.len() - 1]));
                }
                assert(r.last() == rest.last());
            }
        } else {
            lemma_collapse(s, i + 1);
            let rest = collapse_from(s, i + 1);
            assert(r == seq![s[i]] + rest);
            assert forall|k: int| 0 <= k < r.len() - 2 implies !(#[trigger] r[k] == '\n' && r[k + 1]
                == '\n' && r[k + 2] == '\n') by {
                if k >= 1 {
                    assert(r[k] == rest[k - 1]);
                    assert(r[k + 1] == rest[k]);
                    assert(r[k + 2] == rest[k + 1]);
                }
            }
            if i + 1 < s.len() {
                assert(r.last() == rest.last());
            }
        }
    }
}

/// Cleaned Markdown is trimmed and never holds more than one blank line in
/// a row.
pub proof fn law_clean_markdown_shape(raw: Seq<char>)
    ensures
        trim(spec_clean_markdown(raw)) == spec_clean_markdown(raw),
        no_blank_line_runs(spec_clean_markdown(raw)),
{
    let unfenced = strip_closing_fence(strip_opening_fence(crlf_to_lf(raw)));
    let bulleted = join(flat_bullets(lines(strip_artifacts(unfenced))), seq!['\n']);
    let t = trim(bulleted);
    lemma_trim_range(bulleted);
    lemma_collapse(t, 0);
    let c = collapse_from(t, 0);
    assert(c == spec_clean_markdown(raw));
    if t.len() > 0 {
        assert(!is_ws(c[0]));
        assert(trim_start(c) == c);
        assert(!is_ws(c.last()));
        assert(trim_end(c) == c);
    } else {
        assert(c.len() == 0);
        assert(trim_start(c) == c);
        assert(trim_end(c) == c);
    }
}

fn in_run_exec(kind: &RunKind, c: char) -> (b: bool)
    ensures
        b == in_run(*kind, c),
{
    match kind {
        RunKind::Letters => ('a' <= c && c <= 'z') || ('A' <= c && c <= 'Z') || c == '_',
        RunKind::NotClose => c != ']',
        RunKind::Blank => is_whitespace(c),
        RunKind::Newline => c == '\n',
        RunKind::Hash => c == '#',
    }
}

/// The end of the run of `kind` that starts at `i`.
fn run_end(s: &[char], i: usize, kind: &RunKind) -> (j: usize)
    requires
        i <= s@.len(),
    ensures
        j == i + run_len(s@, i as int, *kind),
{
    let mut j = i;
    while j < s.len() && in_run_exec(kind, s[j])
        invariant
            i <= j <= s@.len(),
            run_len(s@, i as int, *kind) == (j - i) + run_len(s@, j as int, *kind),
        decreases s@.len() - j,
    {
        j = j + 1;
    }
    j
}

fn last_newline_at(s: &[char], e: usize, w: usize) -> (r: Option<usize>)
    requires
        e + w <= s@.len(),
    ensures
        match r {
            Some(k) => last_newline(s@, e as int, w as nat) == Some(k as int),
            None => last_newline(s@, e as int, w as nat) is None,
        },
{
    let len = s.len();
    let mut n = w;
    while n > 0 && s[e + n - 1] != '\n'
        invariant
            s@.len() == len,
            n <= w,
            e + w <= s@.len(),
            e + n <= s@.len(),
            last_newline(s@, e as int, w as nat) == last_newline(s@, e as int, n as nat),
        decreases n,
    {
        n = n - 1;
    }
    if n > 0 {
        Some(e + n - 1)
    } else {
        None
    }
}

/// The length of the grounding artefact that starts at `i` (see
/// [`artifact_len`]).
fn artifact_at(s: &[char], i: usize) -> (r: Option<usize>)
    requires
        i < s@.len(),
    ensures
        match r {
            Some(k) => artifact_len(s@, i as int) == Some(k as nat),
            None => artifact_len(s@, i as int) is None,
        },
{
    let len = s.len();
    let o = run_end(s, i, &RunKind::Letters);
    proof {
        lemma_run_len_bound(s@, i as int, RunKind::Letters);
    }
    if o == i || len - o < 2 || s[o] != '[' || s[o + 1] != '[' {
        return None;
    }
    let c = run_end(s, o + 2, &RunKind::NotClose);
    proof {
        lemma_run_len_bound(s@, o + 2, RunKind::NotClose);
    }
    if c == o + 2 || len - c < 2 || s[c] != ']' || s[c + 1] != ']' {
        return None;
    }
    let e = c + 2;
    let end = run_end(s, e, &RunKind::Blank);
    proof {
        lemma_run_len_bound(s@, e as int, RunKind::Blank);
    }
    if end == len {
        return Some(end - i);
    }
    match last_newline_at(s, e, end - e) {
        Some(k) => {
            proof {
                lemma_last_newline(s@, e as int, (end - e) as nat);
            }
            Some(k + 1 - i)
        },
        None => None,
    }
}

fn artifacts_chars(s: &[char]) -> (r: Vec<char>)
    ensures
        r@ == strip_artifacts(s@),
{
    let mut r: Vec<char> = Vec::new();
    let mut i: usize = 0;
    while i < s.len()
        invariant
            i <= s@.len(),
            r@ + strip_artifacts_from(s@, i as int) == strip_artifacts(s@),
        decreases s@.len() - i,
    {
        let at_line_start = i == 0 || s[i - 1] == '\n';
        let found = if at_line_start {
            artifact_at(s, i)
        } else {
            None
        };
        match found {
            Some(k) => {
                proof {
                    lemma_artifact_len_bound(s@, i as int);
                }
                i = i + k;
            },
            None => {
                let ghost old_r = r@;
                r.push(s[i]);
                proof {
                    assert(old_r + strip_artifacts_from(s@, i as int) =~= r@ + strip_artifacts_from(
                        s@,
                        i + 1,
                    ));
                }
                i = i + 1;
            },
        }
    }
    proof {
        assert(r@ + seq![] =~= r@);
    }
    r
}

fn crlf_chars(s: &[char]) -> (r: Vec<char>)
    ensures
        r@ == crlf_to_lf(s@),
{
    let mut r: Vec<char> = Vec::new();
    let mut i: usize = 0;
    proof {
        assert(s@.skip(0) =~= s@);
    }
    while i < s.len()
        invariant
            i <= s@.len(),
            r@ + crlf_to_lf(s@.skip(i as int)) == crlf_to_lf(s@),
        decreases s@.len() - i,
    {
        let ghost rest = s@.skip(i as int);
        let ghost old_r = r@;
        if i + 1 < s.len() && s[i] == '\r' && s[i + 1] == '\n' {
            r.push('\n');
            proof {
                assert(rest.skip(2) =~= s@.skip(i + 2));
                assert(old_r + (seq!['\n'] + crlf_to_lf(rest.skip(2))) =~= r@ + crlf_to_lf(
                    s@.skip(i + 2),
                ));
            }
            i = i + 2;
        } else {
            r.push(s[i]);
            proof {
                assert(rest.drop_first() =~= s@.skip(i + 1));
                assert(old_r + (seq![s@[i as int]] + crlf_to_lf(rest.drop_first())) =~= r@
                    + crlf_to_lf(s@.skip(i + 1)));
            }
            i = i + 1;
        }
    }
    proof {
        assert(r@ + seq![] =~= r@);
    }
    r
}

/// Whether `p` is a prefix of `s[i..]`.
fn prefix_at(s: &[char], i: usize, p: &[char]) -> (b: bool)
    requires
        i <= s@.len(),
    ensures
        b == starts_with(s@.skip(i as int), p@),
{
    if s.len() - i < p.len() {
        return false;
    }
    let len = s.len();
    let mut k: usize = 0;
    while k < p.len()
        invariant
            s@.len() == len,
            k <= p@.len(),
            i <= s@.len(),
            i + p@.len() <= s@.len(),
            forall|m: int| 0 <= m < k ==> s@[i + m] == p@[m],
        decreases p@.len() - k,
    {
        if s[i + k] != p[k] {
            proof {
                if starts_with(s@.skip(i as int), p@) {
                    assert(s@.skip(i as int).take(p@.len() as int)[k as int] == s@[i + k]);
                }
            }
            return false;
        }
        k = k + 1;
    }
    proof {
        assert(s@.skip(i as int).take(p@.len() as int) =~= p@);
    }
    true
}

fn opening_fence_chars(s: &[char]) -> (r: Vec<char>)
    ensures
        r@ == strip_opening_fence(s@),
{
    let t = trim_start_chars(s);
    let f = chars_of("```");
    proof {
        reveal_strlit("```");
        reveal_strlit("markdown");
        assert(t@.skip(0) =~= t@);
    }
    if !prefix_at(t.as_slice(), 0, f.as_slice()) {
        let r = copy_range(s, 0, s.len());
        proof {
            assert(r@ =~= s@);
        }
        return r;
    }
    let w = chars_of("markdown");
    let start = if prefix_at(t.as_slice(), 3, w.as_slice()) {
        proof {
            assert(t@.skip(3).skip(8) =~= t@.skip(11));
        }
        11
    } else {
        3
    };
    let v = copy_range(t.as_slice(), start, t.len());
    proof {
        assert(v@ =~= t@.skip(start as int));
    }
    trim_start_chars(v.as_slice())
}

fn closing_fence_chars(s: &[char]) -> (r: Vec<char>)
    ensures
        r@ == strip_closing_fence(s@),
{
    let t = trim_end_chars(s);
    let f = chars_of("```");
    proof {
        reveal_strlit("```");
    }
    if t.len() < 3 || !prefix_at(t.as_slice(), t.len() - 3, f.as_slice()) {
        proof {
            if t@.len() >= 3 {
                assert(t@.skip(t@.len() - 3).take(3) =~= t@.skip(t@.len() - 3));
            }
        }
        let r = copy_range(s, 0, s.len());
        proof {
            assert(r@ =~= s@);
        }
        return r;
    }
    proof {
        assert(t@.skip(t@.len() - 3).take(3) =~= t@.skip(t@.len() - 3));
    }
    let v = copy_range(t.as_slice(), 0, t.len() - 3);
    proof {
        assert(v@ =~= t@.take(t@.len() - 3));
    }
    trim_end_chars(v.as_slice())
}

fn collapse_chars(s: &[char]) -> (r: Vec<char>)
    ensures
        r@ == collapse_blank_lines(s@),
{
    let mut r: Vec<char> = Vec::new();
    let mut i: usize = 0;
    while i < s.len()
        invariant
            i <= s@.len(),
            r@ + collapse_from(s@, i as int) == collapse_blank_lines(s@),
        decreases s@.len() - i,
    {
        let ghost old_r = r@;
        if s[i] == '\n' {
            let j = run_end(s, i, &RunKind::Newline);
            proof {
                lemma_run_len_bound(s@, i as int, RunKind::Newline);
            }
            if j - i >= 3 {
                r.push('\n');
                r.push('\n');
                proof {
                    assert(r@ =~= old_r + seq!['\n', '\n']);
                }
            } else {
                let run = copy_range(s, i, j);
                r.extend_from_slice(run.as_slice());
            }
            proof {
                assert(old_r + collapse_from(s@, i as int) =~= r@ + collapse_from(s@, j as int));
            }
            i = j;
        } else {
            r.push(s[i]);
            proof {
                assert(old_r + collapse_from(s@, i as int) =~= r@ + collapse_from(s@, i + 1));
            }
            i = i + 1;
        }
    }
    proof {
        assert(r@ + seq![] =~= r@);
    }
    r
}

fn flat_bullet_lines(ls: &Vec<Vec<char>>) -> (r: Vec<Vec<char>>)
    ensures
        views(r@) == flat_bullets(views(ls@)),
{
    let mut r: Vec<Vec<char>> = Vec::new();
    let mut i: usize = 0;
    while i < ls.len()
        invariant
            i <= ls@.len(),
            views(r@) == flat_bullets(views(ls@).take(i as int)),
        decreases ls@.len() - i,
    {
        let ghost lv = views(ls@);
        proof {
            assert(lv.take(i + 1).drop_last() =~= lv.take(i as int));
            assert(lv.take(i + 1).last() == ls@[i as int]@);
        }
        let line = string_from_chars(ls[i].as_slice());
        let parts = normalize_compact_bullets(line.as_str());
        let ghost base = views(r@);
        let mut k: usize = 0;
        while k < parts.len()
            invariant
                k <= parts@.len(),
                views(r@) == base + string_views(parts@).take(k as int),
            decreases parts@.len() - k,
        {
            let ghost before = views(r@);
            r.push(chars_of(parts[k].as_str()));
            proof {
                assert(views(r@) =~= before.push(parts@[k as int]@));
                assert(string_views(parts@).take(k + 1) =~= string_views(parts@).take(k as int).push(
                    parts@[k as int]@,
                ));
            }
            k = k + 1;
        }
        proof {
            assert(string_views(parts@).take(k as int) =~= string_views(parts@));
        }
        i = i + 1;
    }
    proof {
        assert(views(ls@).take(i as int) =~= views(ls@));
    }
    r
}

/// The cleaned form of a page's OCR output (see [`spec_clean_markdown`]).
pub fn clean_markdown(raw: &str) -> (r: String)
    ensures
        r@ == spec_clean_markdown(raw@),
{
    let cs = chars_of(raw);
    let normalized = crlf_chars(cs.as_slice());
    let opened = opening_fence_chars(normalized.as_slice());
    let unfenced = closing_fence_chars(opened.as_slice());
    let stripped = artifacts_chars(unfenced.as_slice());
    let ls = split_lines(stripped.as_slice());
    let bulleted = flat_bullet_lines(&ls);
    let mut nl: Vec<char> = Vec::new();
    nl.push('\n');
    proof {
        assert(nl@ =~= seq!['\n']);
    }
    let joined = join_parts(&bulleted, nl.as_slice());
    let trimmed = trim_chars(joined.as_slice());
    let collapsed = collapse_chars(trimmed.as_slice());
    string_from_chars(collapsed.as_slice())
}

// ---------------------------------------------------------------- table of contents

/// The level and title of a Markdown heading line: one to six `'#'`, a
/// blank, and a title that is not blank once trimmed (the pattern
/// `^(#{1,6})\s+(.+?)\s*$`, title trimmed).
pub open spec fn heading(line: Seq<char>) -> Option<(nat, Seq<char>)> {
    let h = run_len(line, 0, RunKind::Hash);
    if 1 <= h <= 6 && h < line.len() && is_ws(line[h as int]) && trim(line.skip(h as int)).len()
        > 0 {
        Some((h, trim(line.skip(h as int))))
    } else {
        None
    }
}

/// Two spaces for each level below `level`.
pub open spec fn indent(level: nat) -> Seq<char>
    decreases level,
{
    if level <= 1 {
        seq![]
    } else {
        indent((level - 1) as nat) + seq![' ', ' ']
    }
}

/// The table-of-contents line of a heading: indented by level, a bullet
/// with a link to the title's slug.
pub open spec fn toc_entry(level: nat, title: Seq<char>) -> Seq<char> {
    indent(level) + seq!['-', ' ', '['] + title + seq![']', '(', '#'] + spec_slugify(title) + seq![
        ')',
    ]
}

/// The table-of-contents lines of the headings among `ls`, in order.
pub open spec fn toc_entries(ls: Seq<Seq<char>>) -> Seq<Seq<char>>
    decreases ls.len(),
{
    if ls.len() == 0 {
        seq![]
    } else {
        let init = toc_entries(ls.drop_last());
        match heading(ls.last()) {
            Some((level, title)) => init.push(toc_entry(level, title)),
            None => init,
        }
    }
}

/// The table of contents of a Markdown text: one line per heading.
pub open spec fn spec_build_toc(markdown: Seq<char>) -> Seq<char> {
    join(toc_entries(lines(markdown)), seq!['\n'])
}

proof fn lemma_toc_entries(ls: Seq<Seq<char>>)
    ensures
        toc_entries(ls).len() > 0 <==> exists|i: int| 0 <= i < ls.len() && (#[trigger] heading(ls[i])) is Some,
        forall|j: int| 0 <= j < toc_entries(ls).len() ==> (#[trigger] toc_entries(ls)[j]).len() > 0,
    decreases ls.len(),
{
    if ls.len() > 0 {
        let p = ls.drop_last();
        lemma_toc_entries(p);
        let init = toc_entries(p);
        let t = toc_entries(ls);
        if exists|i: int| 0 <= i < p.len() && (#[trigger] heading(p[i])) is Some {
            let i = choose|i: int| 0 <= i < p.len() && (#[trigger] heading(p[i])) is Some;
            assert(ls[i] == p[i]);
        }
        if exists|i: int| 0 <= i < ls.len() && (#[trigger] heading(ls[i])) is Some {
            let i = choose|i: int| 0 <= i < ls.len() && (#[trigger] heading(ls[i])) is Some;
            if i < p.len() {
                assert(ls[i] == p[i]);
            }
        }
        assert forall|j: int| 0 <= j < t.len() implies (#[trigger] t[j]).len() > 0 by {
            if j < init.len() {
                assert(t[j] == init[j]);
            }
        }
    }
}

proof fn lemma_join_nonempty(parts: Seq<Seq<char>>, sep: Seq<char>)
    requires
        forall|j: int| 0 <= j < parts.len() ==> (#[trigger] parts[j]).len() > 0,
    ensures
        join(parts, sep).len() > 0 <==> parts.len() > 0,
{
    if parts.len() > 1 {
        assert(parts.last().len() > 0);
    } else if parts.len() == 1 {
        assert(parts[0].len() > 0);
    }
}

/// The table of contents is empty exactly when the text has no heading
/// line.
pub proof fn law_toc_present_iff_heading(markdown: Seq<char>)
    ensures
        spec_build_toc(markdown).len() > 0 <==> exists|i: int|
            0 <= i < lines(markdown).len() && (#[trigger] heading(lines(markdown)[i])) is Some,
{
    lemma_toc_entries(lines(markdown));
    lemma_join_nonempty(toc_entries(lines(markdown)), seq!['\n']);
}

fn heading_of(line: &[char]) -> (r: Option<(usize, Vec<char>)>)
    ensures
        match r {
            Some((h, t)) => heading(line@) == Some((h as nat, t@)),
            None => heading(line@) is None,
        },
{
    let h = run_end(line, 0, &RunKind::Hash);
    if h >= 1 && h <= 6 && h < line.len() && is_whitespace(line[h]) {
        let rest = copy_range(line, h, line.len());
        proof {
            assert(rest@ =~= line@.skip(h as int));
        }
        let t = trim_chars(rest.as_slice());
        if t.len() > 0 {
            return Some((h, t));
        }
    }
    None
}

fn toc_line(level: usize, title: &[char]) -> (r: Vec<char>)
    requires
        1 <= level <= 6,
    ensures
        r@ == toc_entry(level as nat, title@),
{
    let mut r: Vec<char> = Vec::new();
    let mut k: usize = 1;
    proof {
        assert(r@ =~= indent(1));
    }
    while k < level
        invariant
            1 <= k <= level <= 6,
            r@ == indent(k as nat),
        decreases level - k,
    {
        r.push(' ');
        r.push(' ');
        proof {
            assert(r@ =~= indent((k + 1) as nat));
        }
        k = k + 1;
    }
    let ghost ind = r@;
    r.push('-');
    r.push(' ');
    r.push('[');
    r.extend_from_slice(title);
    r.push(']');
    r.push('(');
    r.push('#');
    let slug = slugify(string_from_chars(title).as_str());
    push_str(&mut r, slug.as_str());
    r.push(')');
    proof {
        assert(r@ =~= toc_entry(level as nat, title@));
    }
    r
}

fn toc_chars(markdown: &[char]) -> (r: Vec<char>)
    ensures
        r@ == spec_build_toc(markdown@),
{
    let ls = split_lines(markdown);
    let mut entries: Vec<Vec<char>> = Vec::new();
    let mut i: usize = 0;
    while i < ls.len()
        invariant
            i <= ls@.len(),
            views(ls@) == lines(markdown@),
            views(entries@) == toc_entries(views(ls@).take(i as int)),
        decreases ls@.len() - i,
    {
        let ghost lv = views(ls@);
        proof {
            assert(lv.take(i + 1).drop_last() =~= lv.take(i as int));
            assert(lv.take(i + 1).last() == ls@[i as int]@);
        }
        let ghost before = views(entries@);
        match heading_of(ls[i].as_slice()) {
            Some((level, title)) => {
                let entry = toc_line(level, title.as_slice());
                entries.push(entry);
                proof {
                    assert(views(entries@) =~= before.push(entry@));
                }
            },
            None => {},
        }
        i = i + 1;
    }
    proof {
        assert(views(ls@).take(i as int) =~= views(ls@));
    }
    let mut nl: Vec<char> = Vec::new();
    nl.push('\n');
    proof {
        assert(nl@ =~= seq!['\n']);
    }
    join_parts(&entries, nl.as_slice())
}

/// The table of contents of a Markdown text (see [`spec_build_toc`]).
pub fn build_toc(markdown: &str) -> (r: String)
    ensures
        r@ == spec_build_toc(markdown@),
{
    let cs = chars_of(markdown);
    let t = toc_chars(cs.as_slice());
    string_from_chars(t.as_slice())
}

// ---------------------------------------------------------------- front matter and document

/// The front-matter line `key` + quoted value, where the value is there and
/// not empty.
pub open spec fn meta_line(key: Seq<char>, value: Option<Seq<char>>) -> Seq<Seq<char>> {
    match value {
        Some(v) => if v.len() > 0 {
            seq![key + spec_yaml_string(v)]
        } else {
            seq![]
        },
        None => seq![],
    }
}

/// The lines of the YAML front matter: the source, the page count and the
/// generation time, then the metadata texts that are present, between two
/// `---` lines.
pub open spec fn frontmatter_lines(pdf: PdfInfo, source_pdf: Seq<char>, generated_at: Seq<char>) -> Seq<
    Seq<char>,
> {
    seq![
        "---"@,
        "source_pdf: "@ + spec_yaml_string(source_pdf),
        "pages: "@ + decimal(pdf.page_count as nat),
        "generated_at: "@ + spec_yaml_string(generated_at),
    ] + meta_line("title: "@, opt_view(pdf.title)) + meta_line("author: "@, opt_view(pdf.author))
        + meta_line("creator: "@, opt_view(pdf.creator)) + meta_line(
        "producer: "@,
        opt_view(pdf.producer),
    ) + seq!["---"@]
}

/// Whether an optional metadata text is there and not empty.
pub open spec fn given(v: Option<String>) -> bool {
    v matches Some(t) && t@.len() > 0
}

/// One for a present metadata text, zero otherwise.
pub open spec fn count_given(v: Option<String>) -> int {
    if given(v) {
        1
    } else {
        0
    }
}

proof fn lemma_meta_line(key: Seq<char>, v: Option<String>)
    ensures
        meta_line(key, opt_view(v)).len() == count_given(v),
        given(v) ==> meta_line(key, opt_view(v))[0] == key + spec_yaml_string(v->0@),
{
}

/// The front matter has one line per part, in a fixed order: the opening
/// `---`, the source, the page count, the generation time; then the title,
/// author, creator and producer, each from its own metadata field and only
/// when that field holds a non-empty text; then the closing `---`.
pub proof fn law_frontmatter_lines(pdf: PdfInfo, source_pdf: Seq<char>, generated_at: Seq<char>)
    ensures
        frontmatter_lines(pdf, source_pdf, generated_at).len() == 5 + count_given(pdf.title)
            + count_given(pdf.author) + count_given(pdf.creator) + count_given(pdf.producer),
        frontmatter_lines(pdf, source_pdf, generated_at)[0] == "---"@,
        frontmatter_lines(pdf, source_pdf, generated_at)[1] == "source_pdf: "@ + spec_yaml_string(
            source_pdf,
        ),
        frontmatter_lines(pdf, source_pdf, generated_at)[2] == "pages: "@ + decimal(
            pdf.page_count as nat,
        ),
        frontmatter_lines(pdf, source_pdf, generated_at)[3] == "generated_at: "@ + spec_yaml_string(
            generated_at,
        ),
        given(pdf.title) ==> frontmatter_lines(pdf, source_pdf, generated_at)[4] == "title: "@
            + spec_yaml_string(pdf.title->0@),
        given(pdf.author) ==> frontmatter_lines(pdf, source_pdf, generated_at)[4 + count_given(
            pdf.title,
        )] == "author: "@ + spec_yaml_string(pdf.author->0@),
        given(pdf.creator) ==> frontmatter_lines(pdf, source_pdf, generated_at)[4 + count_given(
            pdf.title,
        ) + count_given(pdf.author)] == "creator: "@ + spec_yaml_string(pdf.creator->0@),
        given(pdf.producer) ==> frontmatter_lines(pdf, source_pdf, generated_at)[4 + count_given(
            pdf.title,
        ) + count_given(pdf.author) + count_given(pdf.creator)] == "producer: "@ + spec_yaml_string(
            pdf.producer->0@,
        ),
        frontmatter_lines(pdf, source_pdf, generated_at).last() == "---"@,
{
    let head = seq![
        "---"@,
        "source_pdf: "@ + spec_yaml_string(source_pdf),
        "pages: "@ + decimal(pdf.page_count as nat),
        "generated_at: "@ + spec_yaml_string(generated_at),
    ];
    let mt = meta_line("title: "@, opt_view(pdf.title));
    let ma = meta_line("author: "@, opt_view(pdf.author));
    let mc = meta_line("creator: "@, opt_view(pdf.creator));
    let mp = meta_line("producer: "@, opt_view(pdf.producer));
    lemma_meta_line("title: "@, pdf.title);
    lemma_meta_line("author: "@, pdf.author);
    lemma_meta_line("creator: "@, pdf.creator);
    lemma_meta_line("producer: "@, pdf.producer);
    let l = frontmatter_lines(pdf, source_pdf, generated_at);
    assert(l == head + mt + ma + mc + mp + seq!["---"@]);
    let nt = mt.len() as int;
    let na = ma.len() as int;
    let nc = mc.len() as int;
    assert(l[0] == head[0] && l[1] == head[1] && l[2] == head[2] && l[3] == head[3]);
    if given(pdf.title) {
        assert(l[4] == mt[0]);
    }
    if given(pdf.author) {
        assert(l[4 + nt] == ma[0]);
    }
    if given(pdf.creator) {
        assert(l[4 + nt + na] == mc[0]);
    }
    if given(pdf.producer) {
        assert(l[4 + nt + na + nc] == mp[0]);
    }
}

/// The YAML front matter of the document.
pub open spec fn spec_frontmatter(pdf: PdfInfo, source_pdf: Seq<char>, generated_at: Seq<char>) -> Seq<
    char,
> {
    join(frontmatter_lines(pdf, source_pdf, generated_at), seq!['\n'])
}

/// A page's Markdown under a comment that names its page number.
pub open spec fn page_block(page: u32, markdown: Seq<char>) -> Seq<char> {
    "<!-- page: "@ + decimal(page as nat) + " -->\n"@ + markdown
}

/// The page blocks of the pages, in order.
pub open spec fn page_blocks(pages: Seq<(u32, String)>) -> Seq<Seq<char>> {
    pages.map_values(|p: (u32, String)| page_block(p.0, p.1@))
}

/// The document body under its table of contents, where it has one.
pub open spec fn spec_document_content(body: Seq<char>) -> Seq<char> {
    let toc = spec_build_toc(body);
    if toc.len() == 0 {
        body
    } else {
        "## Table of Contents\n\n"@ + toc + "\n\n"@ + body
    }
}

/// The whole document: front matter, then the trimmed content (table of
/// contents and the page blocks separated by blank lines), each followed
/// by a line break.
pub open spec fn spec_assemble_markdown(
    pdf: PdfInfo,
    source_pdf: Seq<char>,
    pages: Seq<(u32, String)>,
    generated_at: Seq<char>,
) -> Seq<char> {
    let body = join(page_blocks(pages), "\n\n"@);
    spec_frontmatter(pdf, source_pdf, generated_at) + seq!['\n'] + trim(spec_document_content(body))
        + seq!['\n']
}

fn push_meta(lines: &mut Vec<Vec<char>>, key: &str, value: &Option<String>)
    ensures
        views(final(lines)@) == views(old(lines)@) + meta_line(key@, opt_view(*value)),
{
    let ghost before = views(lines@);
    match value {
        Some(v) => {
            let vc = chars_of(v.as_str());
            if vc.len() > 0 {
                lines.push(quoted_line(key, v.as_str()));
                proof {
                    assert(views(lines@) =~= before + meta_line(key@, opt_view(*value)));
                }
            } else {
                proof {
                    assert(before + meta_line(key@, opt_view(*value)) =~= before);
                }
            }
        },
        None => {
            proof {
                assert(before + meta_line(key@, opt_view(*value)) =~= before);
            }
        },
    }
}

fn quoted_line(key: &str, value: &str) -> (r: Vec<char>)
    ensures
        r@ == key@ + spec_yaml_string(value@),
{
    let mut line = chars_of(key);
    let vc = chars_of(value);
    let q = yaml_chars(vc.as_slice());
    line.extend_from_slice(q.as_slice());
    line
}

/// The YAML front matter (see [`spec_frontmatter`]), with `generated_at`
/// as the generation time.
pub fn build_frontmatter(pdf: &PdfInfo, source_pdf: &str, generated_at: &str) -> (r: String)
    ensures
        r@ == spec_frontmatter(*pdf, source_pdf@, generated_at@),
{
    let mut lines: Vec<Vec<char>> = Vec::new();
    lines.push(chars_of("---"));
    lines.push(quoted_line("source_pdf: ", source_pdf));
    let mut pages = chars_of("pages: ");
    push_decimal(&mut pages, pdf.page_count as u64);
    lines.push(pages);
    lines.push(quoted_line("generated_at: ", generated_at));
    let ghost head = views(lines@);
    proof {
        assert(head =~= seq![
            "---"@,
            "source_pdf: "@ + spec_yaml_string(source_pdf@),
            "pages: "@ + decimal(pdf.page_count as nat),
            "generated_at: "@ + spec_yaml_string(generated_at@),
        ]);
    }
    push_meta(&mut lines, "title: ", &pdf.title);
    push_meta(&mut lines, "author: ", &pdf.author);
    push_meta(&mut lines, "creator: ", &pdf.creator);
    push_meta(&mut lines, "producer: ", &pdf.producer);
    let ghost body = views(lines@);
    lines.push(chars_of("---"));
    proof {
        assert(views(lines@) =~= body.push("---"@));
        assert(views(lines@) =~= frontmatter_lines(*pdf, source_pdf@, generated_at@));
    }
    let mut nl: Vec<char> = Vec::new();
    nl.push('\n');
    proof {
        assert(nl@ =~= seq!['\n']);
    }
    let joined = join_parts(&lines, nl.as_slice());
    string_from_chars(joined.as_slice())
}

/// The document assembled from the pages' Markdown (see
/// [`spec_assemble_markdown`]), with `generated_at` as the generation time.
pub fn assemble_markdown(
    pdf: &PdfInfo,
    source_pdf: &str,
    pages: &[(u32, String)],
    generated_at: &str,
) -> (r: String)
    ensures
        r@ == spec_assemble_markdown(*pdf, source_pdf@, pages@, generated_at@),
{
    let mut blocks: Vec<Vec<char>> = Vec::new();
    let mut i: usize = 0;
    while i < pages.len()
        invariant
            i <= pages@.len(),
            views(blocks@) == page_blocks(pages@).take(i as int),
        decreases pages@.len() - i,
    {
        let mut block = chars_of("<!-- page: ");
        push_decimal(&mut block, pages[i].0 as u64);
        push_str(&mut block, " -->\n");
        push_str(&mut block, pages[i].1.as_str());
        proof {
            assert(block@ == page_block(pages@[i as int].0, pages@[i as int].1@));
        }
        let ghost before = views(blocks@);
        blocks.push(block);
        proof {
            assert(views(blocks@) =~= before.push(block@));
            assert(page_blocks(pages@).take(i + 1) =~= page_blocks(pages@).take(i as int).push(
                page_block(pages@[i as int].0, pages@[i as int].1@),
            ));
            assert(views(blocks@) =~= page_blocks(pages@).take(i + 1));
        }
        i = i + 1;
    }
    proof {
        assert(page_blocks(pages@).take(i as int) =~= page_blocks(pages@));
    }
    let sep = chars_of("\n\n");
    let body = join_parts(&blocks, sep.as_slice());
    let toc = toc_chars(body.as_slice());
    let ghost body_v = join(page_blocks(pages@), "\n\n"@);
    proof {
        assert(body@ == body_v);
    }
    let mut content: Vec<char>;
    if toc.len() == 0 {
        content = body;
    } else {
        content = chars_of("## Table of Contents\n\n");
        content.extend_from_slice(toc.as_slice());
        push_str(&mut content, "\n\n");
        content.extend_from_slice(body.as_slice());
    }
    proof {
        assert(content@ =~= spec_document_content(body_v));
    }
    let mut out = chars_of(build_frontmatter(pdf, source_pdf, generated_at).as_str());
    out.push('\n');
    let trimmed = trim_chars(content.as_slice());
    out.extend_from_slice(trimmed.as_slice());
    out.push('\n');
    proof {
        assert(out@ =~= spec_assemble_markdown(*pdf, source_pdf@, pages@, generated_at@));
    }
    string_from_chars(out.as_slice())
}

} // verus!
