//! File-name rules: the last component of a path, its extension, the MIME
//! type served for an image, where uploads are stored, and which directory
//! entries count as receipt images.

use vstd::prelude::*;
use crate::text::{
    chars_eq_ignore_ascii_case, chars_lex_le, chars_of, eq_ignore_ascii_case, lemma_lex_total,
    lemma_lex_trans, lex_le, opt_view, push_chars, string_from_chars,
};

verus! {

broadcast use vstd::seq_lib::group_to_multiset_ensures;

/// The directory that holds the uploaded images.
pub const UPLOAD_ROOT: &'static str = "data/uploads";

/// Index where the last `/`-separated segment of `p` starts.
pub open spec fn segment_start(p: Seq<char>) -> int
    decreases p.len(),
{
    if p.len() == 0 {
        0
    } else if p.last() == '/' {
        p.len() as int
    } else {
        segment_start(p.drop_last())
    }
}

/// The final component of a Unix path when it is a normal component, as
/// `Path::file_name`: trailing separators and `.` components are skipped,
/// and a final `..`, a bare root or an empty path have none.
pub open spec fn file_name_spec(p: Seq<char>) -> Option<Seq<char>>
    decreases p.len(),
{
    if p.len() == 0 {
        None
    } else if p.last() == '/' {
        file_name_spec(p.drop_last())
    } else {
        let k = segment_start(p);
        let seg = p.subrange(k, p.len() as int);
        if seg == seq!['.'] {
            if 0 <= k < p.len() {
                file_name_spec(p.subrange(0, k))
            } else {
                None
            }
        } else if seg == seq!['.', '.'] {
            None
        } else {
            Some(seg)
        }
    }
}

/// Index of the last `.` in `n`, or -1 when there is none.
pub open spec fn last_dot(n: Seq<char>) -> int
    decreases n.len(),
{
    if n.len() == 0 {
        -1
    } else if n.last() == '.' {
        n.len() - 1
    } else {
        last_dot(n.drop_last())
    }
}

/// The extension of a file name, as `Path::extension`: what follows the last
/// `.`, unless there is no `.` or the only one starts the name.
pub open spec fn name_extension(n: Seq<char>) -> Option<Seq<char>> {
    let k = last_dot(n);
    if n == seq!['.', '.'] || k <= 0 {
        None
    } else {
        Some(n.subrange(k + 1, n.len() as int))
    }
}

/// The extension of the final component of a path.
pub open spec fn path_extension_spec(p: Seq<char>) -> Option<Seq<char>> {
    match file_name_spec(p) {
        Some(n) => name_extension(n),
        None => None,
    }
}

proof fn lemma_segment_start_bounds(p: Seq<char>)
    ensures
        0 <= segment_start(p) <= p.len(),
        forall|i: int| segment_start(p) <= i < p.len() ==> p[i] != '/',
        segment_start(p) > 0 ==> p[segment_start(p) - 1] == '/',
    decreases p.len(),
{
    if p.len() > 0 && p.last() != '/' {
        lemma_segment_start_bounds(p.drop_last());
        assert forall|i: int| segment_start(p) <= i < p.len() implies p[i] != '/' by {
            if i < p.len() - 1 {
                assert(p.drop_last()[i] == p[i]);
            }
        }
    }
}

fn find_segment_start(p: &Vec<char>, end: usize) -> (k: usize)
    requires
        end <= p@.len(),
    ensures
        k as int == segment_start(p@.take(end as int)),
        k <= end,
{
    let mut k = end;
    while k > 0 && p[k - 1] != '/'
        invariant
            k <= end <= p@.len(),
            segment_start(p@.take(end as int)) == segment_start(p@.take(k as int)),
        decreases k,
    {
        assert(p@.take(k as int).drop_last() =~= p@.take(k - 1));
        k = k - 1;
    }
    proof {
        if k > 0 {
            assert(p@.take(k as int).last() == '/');
        }
    }
    k
}

/// The final normal component of a path (`Path::file_name`).
pub fn path_file_name(p: &Vec<char>) -> (r: Option<Vec<char>>)
    ensures
        match r {
            Some(n) => file_name_spec(p@) == Some(n@),
            None => file_name_spec(p@) is None,
        },
{
    let mut end = p.len();
    assert(p@.take(end as int) =~= p@);
    loop
        invariant
            end <= p@.len(),
            file_name_spec(p@) == file_name_spec(p@.take(end as int)),
        decreases end,
    {
        if end == 0 {
            return None;
        }
        let ghost q = p@.take(end as int);
        if p[end - 1] == '/' {
            assert(q.drop_last() =~= p@.take(end - 1));
            end = end - 1;
        } else {
            let k = find_segment_start(p, end);
            proof {
                lemma_segment_start_bounds(q);
            }
            let len = end - k;
            if len == 1 && p[k] == '.' {
                assert(q.subrange(k as int, q.len() as int) =~= seq!['.']);
                assert(q.subrange(0, k as int) =~= p@.take(k as int));
                end = k;
            } else if len == 2 && p[k] == '.' && p[k + 1] == '.' {
                assert(q.subrange(k as int, q.len() as int) =~= seq!['.', '.']);
                return None;
            } else {
                let mut seg: Vec<char> = Vec::new();
                let mut i = k;
                while i < end
                    invariant
                        k <= i <= end <= p@.len(),
                        seg@ == p@.subrange(k as int, i as int),
                    decreases end - i,
                {
                    seg.push(p[i]);
                    i = i + 1;
                    assert(seg@ =~= p@.subrange(k as int, i as int));
                }
                assert(q.subrange(k as int, q.len() as int) =~= seg@);
                proof {
                    if len == 1 {
                        assert(seg@ != seq!['.']) by {
                            assert(seg@[0] != '.');
                        }
                    } else if len == 2 {
                        if seg@ == seq!['.', '.'] {
                            assert(seg@[0] == '.' && seg@[1] == '.');
                        }
                    }
                }
                return Some(seg);
            }
        }
    }
}

/// The extension of a file name (`Path::extension` on a single component).
pub fn name_ext(n: &Vec<char>) -> (r: Option<Vec<char>>)
    ensures
        match r {
            Some(e) => name_extension(n@) == Some(e@),
            None => name_extension(n@) is None,
        },
{
    let mut k = n.len();
    assert(n@.take(k as int) =~= n@);
    while k > 0 && n[k - 1] != '.'
        invariant
            k <= n@.len(),
            last_dot(n@) == last_dot(n@.take(k as int)) ,
        decreases k,
    {
        assert(n@.take(k as int).drop_last() =~= n@.take(k - 1));
        k = k - 1;
    }
    proof {
        if k > 0 {
            assert(n@.take(k as int).last() == '.');
            assert(last_dot(n@) == k - 1);
        } else {
            assert(last_dot(n@) == -1);
        }
    }
    let is_dotdot = n.len() == 2 && n[0] == '.' && n[1] == '.';
    proof {
        if n@ == seq!['.', '.'] {
            assert(n@[0] == '.' && n@[1] == '.');
        }
        if is_dotdot {
            assert(n@ =~= seq!['.', '.']);
        }
    }
    if is_dotdot || k <= 1 {
        return None;
    }
    let mut e: Vec<char> = Vec::new();
    let mut i = k;
    while i < n.len()
        invariant
            k <= i <= n@.len(),
            e@ == n@.subrange(k as int, i as int),
        decreases n@.len() - i,
    {
        e.push(n[i]);
        i = i + 1;
        assert(e@ =~= n@.subrange(k as int, i as int));
    }
    Some(e)
}

/// The extension of the final component of a path (`Path::extension`).
pub fn path_extension(p: &str) -> (r: Option<String>)
    ensures
        opt_view(r) == path_extension_spec(p@),
{
    let cs = chars_of(p);
    match path_file_name(&cs) {
        None => None,
        Some(n) => match name_ext(&n) {
            None => None,
            Some(e) => Some(string_from_chars(&e)),
        },
    }
}

/// The MIME type served for an image path, chosen by its extension without
/// regard to ASCII case; unknown or missing extensions are served as JPEG.
pub open spec fn mime_type_spec(p: Seq<char>) -> Seq<char> {
    match path_extension_spec(p) {
        Some(e) => if eq_ignore_ascii_case(e, "jpg"@) || eq_ignore_ascii_case(e, "jpeg"@) {
            "image/jpeg"@
        } else if eq_ignore_ascii_case(e, "png"@) {
            "image/png"@
        } else if eq_ignore_ascii_case(e, "webp"@) {
            "image/webp"@
        } else {
            "image/jpeg"@
        },
        None => "image/jpeg"@,
    }
}

/// The MIME type of the image at `path`.
pub fn mime_type(path: &str) -> (r: &'static str)
    ensures
        r@ == mime_type_spec(path@),
{
    let cs = chars_of(path);
    let ext = match path_file_name(&cs) {
        None => None,
        Some(n) => name_ext(&n),
    };
    match ext {
        None => "image/jpeg",
        Some(e) => {
            let jpg = chars_of("jpg");
            let jpeg = chars_of("jpeg");
            let png = chars_of("png");
            let webp = chars_of("webp");
            if chars_eq_ignore_ascii_case(&e, &jpg) || chars_eq_ignore_ascii_case(&e, &jpeg) {
                "image/jpeg"
            } else if chars_eq_ignore_ascii_case(&e, &png) {
                "image/png"
            } else if chars_eq_ignore_ascii_case(&e, &webp) {
                "image/webp"
            } else {
                "image/jpeg"
            }
        },
    }
}

/// Where a file of the given name is stored: `UPLOAD_ROOT` joined with the
/// name as `Path::join` does, so an absolute name replaces the root.
pub open spec fn upload_path_spec(name: Seq<char>) -> Seq<char> {
    if name.len() > 0 && name[0] == '/' {
        name
    } else {
        UPLOAD_ROOT@ + seq!['/'] + name
    }
}

/// The storage path of an uploaded file.
pub fn upload_path(name: &str) -> (r: String)
    ensures
        r@ == upload_path_spec(name@),
{
    let cs = chars_of(name);
    if cs.len() > 0 && cs[0] == '/' {
        return string_from_chars(&cs);
    }
    let mut out = chars_of(UPLOAD_ROOT);
    out.push('/');
    push_chars(&mut out, &cs);
    string_from_chars(&out)
}

/// Whether a directory entry name counts as a receipt image: its extension
/// is `jpg` in any ASCII case.
pub open spec fn is_listed_image(name: Seq<char>) -> bool {
    match path_extension_spec(name) {
        Some(e) => eq_ignore_ascii_case(e, "jpg"@),
        None => false,
    }
}

/// Whether a sequence of names is in non-decreasing lexicographic order.
pub open spec fn names_sorted(s: Seq<Seq<char>>) -> bool {
    forall|i: int, j: int| 0 <= i < j < s.len() ==> lex_le(#[trigger] s[i], #[trigger] s[j])
}

/// The views of a vector of strings.
pub open spec fn views(v: Seq<String>) -> Seq<Seq<char>> {
    v.map_values(|s: String| s@)
}

/// Whether `name` counts as a receipt image.
pub fn is_image_name(name: &String) -> (r: bool)
    ensures
        r == is_listed_image(name@),
{
    match path_extension(name.as_str()) {
        None => false,
        Some(e) => {
            let ec = chars_of(e.as_str());
            let jpg = chars_of("jpg");
            chars_eq_ignore_ascii_case(&ec, &jpg)
        },
    }
}

/// Inserts `x` into the sorted vector `out`, keeping it sorted.
fn insert_sorted(out: &mut Vec<String>, x: String)
    requires
        names_sorted(views(old(out)@)),
    ensures
        names_sorted(views(final(out)@)),
        views(final(out)@).to_multiset() == views(old(out)@).to_multiset().insert(x@),
{
    let xc = chars_of(x.as_str());
    let mut pos: usize = 0;
    let mut found = false;
    while pos < out.len() && !found
        invariant
            pos <= out@.len(),
            forall|j: int| 0 <= j < pos ==> lex_le(#[trigger] views(out@)[j], x@),
            found ==> pos < out@.len() && !lex_le(views(out@)[pos as int], x@),
            names_sorted(views(out@)),
            out@ == old(out)@,
            xc@ == x@,
        decreases out@.len() - pos, if found { 0int } else { 1int },
    {
        let oc = chars_of(out[pos].as_str());
        if !chars_lex_le(&oc, &xc) {
            found = true;
        } else {
            pos = pos + 1;
        }
    }
    let ghost old_out = views(out@);
    proof {
        if pos < out@.len() {
            assert(!lex_le(old_out[pos as int], x@));
            lemma_lex_total(old_out[pos as int], x@);
        }
    }
    out.insert(pos, x);
    let ghost new_out = views(out@);
    assert(new_out =~= old_out.insert(pos as int, x@));
    assert forall|i: int, j: int| 0 <= i < j < new_out.len() implies lex_le(#[trigger] new_out[i], #[trigger] new_out[j]) by {
        if j < pos {
        } else if j == pos {
        } else if i < pos {
            // new_out[i] <= x <= old_out[pos] <= old_out[j - 1]
            lemma_lex_trans(new_out[i], x@, old_out[pos as int]);
            if j - 1 > pos {
                lemma_lex_trans(new_out[i], old_out[pos as int], old_out[j - 1]);
            }
        } else if i == pos {
            if j - 1 > pos {
                lemma_lex_trans(x@, old_out[pos as int], old_out[j - 1]);
            }
        } else {
        }
    }
    assert(new_out.remove(pos as int) =~= old_out);
}

/// The receipt images among the entries of the upload directory, in
/// lexicographic order (the computing part of listing that directory).
pub fn select_image_files(names: Vec<String>) -> (r: Vec<String>)
    ensures
        names_sorted(views(r@)),
        views(r@).to_multiset() == views(names@).filter(|n: Seq<char>| is_listed_image(n)).to_multiset(),
        forall|i: int| 0 <= i < r@.len() ==> is_listed_image(#[trigger] r@[i]@),
{
    let ghost pred = |n: Seq<char>| is_listed_image(n);
    let mut out: Vec<String> = Vec::new();
    let mut i: usize = 0;
    while i < names.len()
        invariant
            i <= names@.len(),
            pred == (|n: Seq<char>| is_listed_image(n)),
            names_sorted(views(out@)),
            views(out@).to_multiset() == views(names@).take(i as int).filter(pred).to_multiset(),
            forall|k: int| 0 <= k < out@.len() ==> is_listed_image(#[trigger] out@[k]@),
        decreases names@.len() - i,
    {
        let ghost before = views(out@);
        assert(views(names@).take(i + 1).drop_last() =~= views(names@).take(i as int));
        reveal(Seq::filter);
        let n = &names[i];
        let ghost t = views(names@).take(i + 1);
        assert(t.last() == n@);
        assert(t.len() > 0);
        if is_image_name(n) {
            assert(t.filter(pred) == t.drop_last().filter(pred).push(n@));
            insert_sorted(&mut out, n.clone());
            assert forall|k: int| 0 <= k < out@.len() implies is_listed_image(#[trigger] out@[k]@) by {
                assert(views(out@).to_multiset().contains(out@[k]@) ) by {
                    assert(views(out@)[k] == out@[k]@);
                }
                if out@[k]@ != n@ {
                    assert(before.to_multiset().contains(out@[k]@));
                    let kk = choose|kk: int| 0 <= kk < before.len() && before[kk] == out@[k]@;
                    assert(is_listed_image(before[kk]));
                }
            }
        }
        i = i + 1;
    }
    assert(views(names@).take(names@.len() as int) =~= views(names@));
    out
}

} // verus!
