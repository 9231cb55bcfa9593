//! Path text: extensions, the image and list-file kinds, and the
//! lexicographic order in which directory listings are taken.
use vstd::prelude::*;
use crate::text::{chars_of, push_char};

verus! {

broadcast use vstd::seq_lib::group_to_multiset_ensures;

/// What `std::path::Path::extension` gives for a path: the text after the
/// last dot of the final component, if there is one.
pub uninterp spec fn extension_of(path: Seq<char>) -> Option<Seq<char>>;

/// `line` without a carriage return at its end.
pub open spec fn without_cr(line: Seq<char>) -> Seq<char> {
    if line.len() > 0 && line.last() == '\r' {
        line.drop_last()
    } else {
        line
    }
}

/// The lines of `text`, which continues the partial line `current`: a line
/// feed ends a line, a carriage return just before it is dropped, and the
/// last line needs no line feed.
pub open spec fn lines_after(text: Seq<char>, current: Seq<char>) -> Seq<Seq<char>>
    decreases text.len(),
{
    if text.len() == 0 {
        if current.len() == 0 {
            Seq::empty()
        } else {
            seq![current]
        }
    } else if text[0] == '\n' {
        seq![without_cr(current)] + lines_after(text.drop_first(), Seq::empty())
    } else {
        lines_after(text.drop_first(), current.push(text[0]))
    }
}

/// The lines of a text, as `str::lines` splits it.
pub open spec fn lines_of(text: Seq<char>) -> Seq<Seq<char>> {
    lines_after(text, Seq::empty())
}

/// Lines split at a line feed carry on independently of what follows.
pub proof fn lemma_lines_after_concat(x: Seq<char>, y: Seq<char>, current: Seq<char>)
    requires
        x.len() > 0,
        x.last() == '\n',
    ensures
        lines_after(x + y, current) == lines_after(x, current) + lines_after(y, Seq::empty()),
    decreases x.len(),
{
    assert((x + y).drop_first() =~= x.drop_first() + y);
    assert((x + y)[0] == x[0]);
    if x[0] == '\n' {
        if x.len() == 1 {
            assert(x.drop_first() + y =~= y);
            assert(lines_after(x.drop_first(), Seq::empty()) =~= Seq::<Seq<char>>::empty());
            assert(lines_after(x, current) =~= seq![without_cr(current)]);
        } else {
            lemma_lines_after_concat(x.drop_first(), y, Seq::empty());
        }
        assert(lines_after(x + y, current) =~= lines_after(x, current) + lines_after(
            y,
            Seq::empty(),
        ));
    } else {
        lemma_lines_after_concat(x.drop_first(), y, current.push(x[0]));
    }
}

/// A text without line feeds, ended by one, is a single line.
pub proof fn lemma_single_line(p: Seq<char>, current: Seq<char>)
    requires
        forall|i: int| 0 <= i < p.len() ==> p[i] != '\n',
    ensures
        lines_after(p + seq!['\n'], current) == seq![without_cr(current + p)],
    decreases p.len(),
{
    let t = p + seq!['\n'];
    if p.len() == 0 {
        assert(t.drop_first() =~= Seq::<char>::empty());
        assert(current + p =~= current);
        assert(t[0] == '\n');
        assert(lines_after(t.drop_first(), Seq::empty()) =~= Seq::<Seq<char>>::empty());
        assert(lines_after(t, current) =~= seq![without_cr(current + p)]);
    } else {
        assert(t[0] == p[0]);
        assert(t.drop_first() =~= p.drop_first() + seq!['\n']);
        lemma_single_line(p.drop_first(), current.push(p[0]));
        assert(current.push(p[0]) + p.drop_first() =~= current + p);
    }
}

/// Relies on `std::path::Path::extension`, whose result depends on the path
/// text alone.
#[verifier::external_body]
fn path_extension(path: &str) -> (r: Option<String>)
    ensures
        r is Some <==> extension_of(path@) is Some,
        r is Some ==> r->0@ == extension_of(path@)->0,
{
    match std::path::Path::new(path).extension() {
        Some(e) => Some(e.to_string_lossy().into_owned()),
        None => None,
    }
}

/// The text of the first `n` characters of `cs`.
fn text_of(cs: &Vec<char>, n: usize) -> (r: String)
    requires
        n <= cs@.len(),
    ensures
        r@ == cs@.subrange(0, n as int),
{
    let mut r = String::new();
    let mut i: usize = 0;
    while i < n
        invariant
            i <= n,
            n <= cs@.len(),
            r@ == cs@.subrange(0, i as int),
        decreases n - i,
    {
        push_char(&mut r, cs[i]);
        i = i + 1;
        assert(r@ =~= cs@.subrange(0, i as int));
    }
    r
}

/// The lines of `text`, as `lines_of` states them: a line feed ends a line,
/// a carriage return just before it is dropped, and the last line needs no
/// line feed.
pub fn split_lines(text: &str) -> (r: Vec<String>)
    ensures
        r@.len() == lines_of(text@).len(),
        forall|i: int| 0 <= i < r@.len() ==> #[trigger] r@[i]@ == lines_of(text@)[i],
{
    let cs = chars_of(text);
    let n = cs.len();
    let mut out: Vec<String> = Vec::new();
    let ghost mut outv: Seq<Seq<char>> = Seq::empty();
    let mut cur: Vec<char> = Vec::new();
    let mut i: usize = 0;
    assert(text@.subrange(0, n as int) =~= text@);
    while i < n
        invariant
            cs@ == text@,
            n == cs@.len(),
            i <= n,
            out@.len() == outv.len(),
            forall|k: int| 0 <= k < out@.len() ==> #[trigger] out@[k]@ == outv[k],
            outv + lines_after(text@.subrange(i as int, n as int), cur@) == lines_of(text@),
        decreases n - i,
    {
        let ghost rest = text@.subrange(i as int, n as int);
        assert(rest.drop_first() =~= text@.subrange(i + 1, n as int));
        assert(rest[0] == cs@[i as int]);
        if cs[i] == '\n' {
            let len = cur.len();
            let line = if len > 0 && cur[len - 1] == '\r' {
                text_of(&cur, len - 1)
            } else {
                text_of(&cur, len)
            };
            proof {
                assert(cur@.subrange(0, len as int) =~= cur@);
                assert(len > 0 ==> cur@.subrange(0, len - 1) =~= cur@.drop_last());
                assert(line@ == without_cr(cur@));
                let w = without_cr(cur@);
                assert(outv.push(w) + lines_after(text@.subrange(i + 1, n as int), Seq::empty())
                    =~= outv + lines_after(rest, cur@));
                outv = outv.push(w);
            }
            out.push(line);
            cur = Vec::new();
        } else {
            cur.push(cs[i]);
        }
        i = i + 1;
    }
    assert(text@.subrange(n as int, n as int) =~= Seq::<char>::empty());
    if cur.len() > 0 {
        let line = text_of(&cur, cur.len());
        proof {
            assert(cur@.subrange(0, cur@.len() as int) =~= cur@);
            assert(outv.push(cur@) =~= outv + lines_after(Seq::<char>::empty(), cur@));
            outv = outv.push(cur@);
        }
        out.push(line);
    } else {
        assert(outv =~= outv + lines_after(Seq::<char>::empty(), cur@));
    }
    out
}

/// The extensions, matched case-sensitively, of the files taken as images.
pub open spec fn is_image_extension(e: Seq<char>) -> bool {
    e == "jpeg"@ || e == "jpg"@ || e == "JPG"@ || e == "png"@ || e == "PNG"@
}

/// The extension of the files read as lists of paths.
pub open spec fn is_list_extension(e: Seq<char>) -> bool {
    e == "txt"@
}

/// How a path is treated by its extension.
#[derive(Clone, Copy, Debug, PartialEq, Eq, Structural)]
pub enum PathKind {
    /// An image file to collect.
    Image,
    /// A text file holding one path per line.
    List,
    /// Anything else, which is skipped.
    Other,
}

/// The kind of a path, decided by its extension.
pub open spec fn kind_of(path: Seq<char>) -> PathKind {
    match extension_of(path) {
        Some(e) => if is_image_extension(e) {
            PathKind::Image
        } else if is_list_extension(e) {
            PathKind::List
        } else {
            PathKind::Other
        },
        None => PathKind::Other,
    }
}

/// Whether two texts are equal, character by character.
pub fn same_text(a: &str, b: &str) -> (r: bool)
    ensures
        r == (a@ == b@),
{
    let x = chars_of(a);
    let y = chars_of(b);
    if x.len() != y.len() {
        return false;
    }
    let mut i: usize = 0;
    while i < x.len()
        invariant
            x@ == a@,
            y@ == b@,
            x.len() == y.len(),
            i <= x.len(),
            forall|j: int| 0 <= j < i ==> x@[j] == y@[j],
        decreases x.len() - i,
    {
        if x[i] != y[i] {
            return false;
        }
        i = i + 1;
    }
    assert(a@ =~= b@);
    true
}

/// Whether a file with extension `e` is taken as an image.
pub fn image_extension(e: &str) -> (r: bool)
    ensures
        r == is_image_extension(e@),
{
    same_text(e, "jpeg") || same_text(e, "jpg") || same_text(e, "JPG") || same_text(e, "png")
        || same_text(e, "PNG")
}

/// The kind of `path`, from its extension.
pub fn path_kind(path: &str) -> (r: PathKind)
    ensures
        r == kind_of(path@),
{
    match path_extension(path) {
        Some(e) => {
            if image_extension(e.as_str()) {
                PathKind::Image
            } else if same_text(e.as_str(), "txt") {
                PathKind::List
            } else {
                PathKind::Other
            }
        },
        None => PathKind::Other,
    }
}

/// Lexicographic order on path text, character by character; a prefix
/// comes first.
pub open spec fn lex_le(a: Seq<char>, b: Seq<char>) -> bool
    decreases a.len(),
{
    if a.len() == 0 {
        true
    } else if b.len() == 0 {
        false
    } else if a[0] != b[0] {
        (a[0] as int) < (b[0] as int)
    } else {
        lex_le(a.drop_first(), b.drop_first())
    }
}

/// Whether the texts of `s` are in lexicographic order.
pub open spec fn lex_sorted(s: Seq<String>) -> bool {
    forall|i: int, j: int| 0 <= i < j < s.len() ==> lex_le(#[trigger] s[i]@, #[trigger] s[j]@)
}

/// Any two texts are ordered one way or the other.
pub proof fn lemma_lex_total(a: Seq<char>, b: Seq<char>)
    ensures
        lex_le(a, b) || lex_le(b, a),
    decreases a.len(),
{
    if a.len() > 0 && b.len() > 0 && a[0] == b[0] {
        lemma_lex_total(a.drop_first(), b.drop_first());
    }
}

/// The order is transitive.
pub proof fn lemma_lex_trans(a: Seq<char>, b: Seq<char>, c: Seq<char>)
    requires
        lex_le(a, b),
        lex_le(b, c),
    ensures
        lex_le(a, c),
    decreases a.len(),
{
    if a.len() > 0 && b.len() > 0 && c.len() > 0 && a[0] == b[0] && b[0] == c[0] {
        lemma_lex_trans(a.drop_first(), b.drop_first(), c.drop_first());
    }
}

/// Whether `a` comes no later than `b` in lexicographic order.
pub fn text_le(a: &Vec<char>, b: &Vec<char>) -> (r: bool)
    ensures
        r == lex_le(a@, b@),
{
    let mut i: usize = 0;
    assert(a@.subrange(0, a@.len() as int) =~= a@);
    assert(b@.subrange(0, b@.len() as int) =~= b@);
    while i < a.len() && i < b.len() && a[i] == b[i]
        invariant
            i <= a.len(),
            i <= b.len(),
            lex_le(a@, b@) == lex_le(a@.subrange(i as int, a@.len() as int), b@.subrange(i as int, b@.len() as int)),
        decreases a.len() - i,
    {
        let ghost sa = a@.subrange(i as int, a@.len() as int);
        let ghost sb = b@.subrange(i as int, b@.len() as int);
        assert(sa.drop_first() =~= a@.subrange(i + 1, a@.len() as int));
        assert(sb.drop_first() =~= b@.subrange(i + 1, b@.len() as int));
        i = i + 1;
    }
    let ghost sa = a@.subrange(i as int, a@.len() as int);
    let ghost sb = b@.subrange(i as int, b@.len() as int);
    if i == a.len() {
        assert(sa.len() == 0);
        true
    } else if i == b.len() {
        assert(sb.len() == 0);
        false
    } else {
        assert(sa[0] == a@[i as int] && sb[0] == b@[i as int]);
        a[i] < b[i]
    }
}

/// `paths` in lexicographic order of their text.
pub fn sort_paths(paths: &Vec<String>) -> (r: Vec<String>)
    ensures
        lex_sorted(r@),
        r@.to_multiset() == paths@.to_multiset(),
{
    let mut out: Vec<String> = Vec::new();
    let mut keys: Vec<Vec<char>> = Vec::new();
    let mut i: usize = 0;
    while i < paths.len()
        invariant
            i <= paths.len(),
            out.len() == keys.len(),
            forall|k: int| 0 <= k < keys.len() ==> (#[trigger] keys@[k])@ == out@[k]@,
            lex_sorted(out@),
            out@.to_multiset() == paths@.subrange(0, i as int).to_multiset(),
        decreases paths.len() - i,
    {
        let p = paths[i].clone();
        let key = chars_of(p.as_str());
        let mut pos: usize = 0;
        while pos < keys.len() && text_le(&keys[pos], &key)
            invariant
                pos <= keys.len(),
                out.len() == keys.len(),
                forall|k: int| 0 <= k < keys.len() ==> (#[trigger] keys@[k])@ == out@[k]@,
                forall|k: int| 0 <= k < pos ==> lex_le(#[trigger] out@[k]@, key@),
            decreases keys.len() - pos,
        {
            pos = pos + 1;
        }
        proof {
            if pos < out.len() {
                lemma_lex_total(out@[pos as int]@, key@);
                assert forall|k: int| pos <= k < out.len() implies lex_le(key@, #[trigger] out@[k]@) by {
                    if k > pos {
                        lemma_lex_trans(key@, out@[pos as int]@, out@[k]@);
                    }
                }
            }
        }
        let ghost before = out@;
        let ghost keys_before = keys@;
        out.insert(pos, p);
        keys.insert(pos, key);
        proof {
            assert(paths@.subrange(0, i + 1) =~= paths@.subrange(0, i as int).push(paths@[i as int]));
            assert forall|a: int, b: int| 0 <= a < b < out@.len() implies lex_le(#[trigger] out@[a]@, #[trigger] out@[b]@) by {
                if b < pos {
                } else if b == pos {
                } else if a < pos {
                    lemma_lex_trans(out@[a]@, key@, out@[b]@);
                } else if a == pos {
                } else {
                    assert(out@[a] == before[a - 1] && out@[b] == before[b - 1]);
                }
            }
            assert forall|k: int| 0 <= k < keys.len() implies (#[trigger] keys@[k])@ == out@[k]@ by {
                if k < pos {
                } else if k > pos {
                    assert(keys@[k] == keys_before[k - 1] && out@[k] == before[k - 1]);
                }
            }
        }
        i = i + 1;
    }
    assert(paths@.subrange(0, paths.len() as int) =~= paths@);
    out
}

/// The entries of `entries` whose kind is image, in their order.
pub open spec fn image_entries(entries: Seq<String>) -> Seq<String>
    decreases entries.len(),
{
    if entries.len() == 0 {
        entries
    } else if kind_of(entries.last()@) == PathKind::Image {
        image_entries(entries.drop_last()).push(entries.last())
    } else {
        image_entries(entries.drop_last())
    }
}

/// The images among the entries of a directory, in lexicographic order.
pub fn find_images(entries: &Vec<String>) -> (r: Vec<String>)
    ensures
        lex_sorted(r@),
        r@.to_multiset() == image_entries(entries@).to_multiset(),
{
    let mut images: Vec<String> = Vec::new();
    let mut i: usize = 0;
    while i < entries.len()
        invariant
            i <= entries.len(),
            images@ == image_entries(entries@.subrange(0, i as int)),
        decreases entries.len() - i,
    {
        assert(entries@.subrange(0, i + 1).drop_last() =~= entries@.subrange(0, i as int));
        if path_kind(entries[i].as_str()) == PathKind::Image {
            images.push(entries[i].clone());
        }
        i = i + 1;
    }
    assert(entries@.subrange(0, entries.len() as int) =~= entries@);
    sort_paths(&images)
}

} // verus!
