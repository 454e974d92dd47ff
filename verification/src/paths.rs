//! Paths: names apart by `/`.
use vstd::prelude::*;

use crate::{search, text};
use crate::search::{join, replace, split};
use crate::text::{chars_of, same, string_of_range};

verus! {

/// A part of a path.
pub enum Part {
    Root,
    Here,
    Up,
    Name(String),
}

/// What a `Part` is.
pub enum PartView {
    Root,
    Here,
    Up,
    Name(Seq<char>),
}

impl View for Part {
    type V = PartView;

    open spec fn view(&self) -> PartView {
        match self {
            Part::Root => PartView::Root,
            Part::Here => PartView::Here,
            Part::Up => PartView::Up,
            Part::Name(s) => PartView::Name(s@),
        }
    }
}

/// What the parts in `v` are.
pub open spec fn part_views(v: Seq<Part>) -> Seq<PartView> {
    v.map_values(|p: Part| p@)
}

proof fn lemma_part_views_push(v: Seq<Part>, p: Part)
    ensures
        part_views(v.push(p)) == part_views(v).push(p@),
{
    assert(part_views(v.push(p)) =~= part_views(v).push(p@));
}

/// The parts of the first `k` pieces of a path. Empty pieces are none, and `.`
/// is one only at the very front.
pub open spec fn piece_parts(pieces: Seq<Seq<char>>, k: nat) -> Seq<PartView>
    decreases k,
{
    if k == 0 {
        seq![]
    } else {
        let before = piece_parts(pieces, (k - 1) as nat);
        let piece = pieces[k - 1];
        if piece.len() == 0 {
            before
        } else if piece == "."@ {
            if k == 1 {
                before.push(PartView::Here)
            } else {
                before
            }
        } else if piece == ".."@ {
            before.push(PartView::Up)
        } else {
            before.push(PartView::Name(piece))
        }
    }
}

/// The parts of a path.
pub open spec fn parts_of(path: Seq<char>) -> Seq<PartView> {
    let pieces = search::split_on(path, '/');
    (if path.len() > 0 && path[0] == '/' {
        seq![PartView::Root]
    } else {
        seq![]
    }) + piece_parts(pieces, pieces.len())
}

/// The parts of a path.
pub fn path_parts(path: &str) -> (r: Vec<Part>)
    ensures
        part_views(r@) == parts_of(path@),
{
    let pieces = split(path, '/');
    let mut out: Vec<Part> = Vec::new();
    let rooted: bool = !path.is_empty() && path.get_char(0) == '/';
    if rooted {
        out.push(Part::Root);
    }
    let ghost root = if rooted {
        seq![PartView::Root]
    } else {
        Seq::<PartView>::empty()
    };
    let ghost all = search::texts(pieces@);
    let mut i: usize = 0;
    proof {
        assert(part_views(out@) =~= root);
        assert(root + piece_parts(all, 0) =~= root);
    }
    while i < pieces.len()
        invariant
            i <= pieces@.len(),
            all == search::texts(pieces@),
            part_views(out@) == root + piece_parts(all, i as nat),
        decreases pieces@.len() - i,
    {
        let piece = pieces[i].as_str();
        let ghost before = out@;
        proof {
            assert(all[i as int] == pieces@[i as int]@);
        }
        if piece.is_empty() {
        } else if same(piece, ".") {
            if i == 0 {
                proof {
                    lemma_part_views_push(before, Part::Here);
                }
                out.push(Part::Here);
            }
        } else if same(piece, "..") {
            proof {
                lemma_part_views_push(before, Part::Up);
            }
            out.push(Part::Up);
        } else {
            let part = Part::Name(piece.to_owned());
            proof {
                lemma_part_views_push(before, part);
            }
            out.push(part);
        }
        proof {
            let p = piece_parts(all, i as nat);
            assert(part_views(out@) =~= root + piece_parts(all, (i + 1) as nat));
        }
        i += 1;
    }
    out
}

fn same_part(a: &Part, b: &Part) -> (r: bool)
    ensures
        r == (a@ == b@),
{
    match (a, b) {
        (Part::Root, Part::Root) => true,
        (Part::Here, Part::Here) => true,
        (Part::Up, Part::Up) => true,
        (Part::Name(x), Part::Name(y)) => same(x.as_str(), y.as_str()),
        _ => false,
    }
}

/// Whether two paths have the same parts.
pub fn same_path(a: &str, b: &str) -> (r: bool)
    ensures
        r == (parts_of(a@) == parts_of(b@)),
{
    let x = path_parts(a);
    let y = path_parts(b);
    let ghost p = parts_of(a@);
    let ghost q = parts_of(b@);
    proof {
        assert(p.len() == x@.len());
        assert(q.len() == y@.len());
    }
    if x.len() != y.len() {
        return false;
    }
    let mut i: usize = 0;
    while i < x.len()
        invariant
            i <= x@.len() == y@.len(),
            p == part_views(x@),
            q == part_views(y@),
            p == parts_of(a@),
            q == parts_of(b@),
            forall|k: int| 0 <= k < i ==> p[k] == q[k],
        decreases x@.len() - i,
    {
        if !same_part(&x[i], &y[i]) {
            proof {
                assert(p[i as int] != q[i as int]);
            }
            return false;
        }
        proof {
            assert(p[i as int] == x@[i as int]@ && q[i as int] == y@[i as int]@);
        }
        i += 1;
    }
    proof {
        assert(p =~= q);
    }
    true
}

/// `path` with `next` behind it: a rooted one takes its place, and a `/` comes
/// between where none is there.
pub open spec fn joined_path(path: Seq<char>, next: Seq<char>) -> Seq<char> {
    if next.len() > 0 && next[0] == '/' {
        next
    } else if path.len() == 0 || path.last() == '/' {
        path + next
    } else {
        path + "/"@ + next
    }
}

/// `path` with `next` behind it.
pub fn join_path(path: &str, next: &str) -> (r: String)
    ensures
        r@ == joined_path(path@, next@),
{
    if !next.is_empty() && next.get_char(0) == '/' {
        return next.to_owned();
    }
    let mut out = path.to_owned();
    let n: usize = path.unicode_len();
    if n > 0 && path.get_char(n - 1) != '/' {
        out.append("/");
    }
    out.append(next);
    out
}

/// The names among parts that are only names and `.`; `None` where another is
/// among them.
pub open spec fn plain_names(parts: Seq<PartView>) -> Option<Seq<Seq<char>>>
    decreases parts.len(),
{
    if parts.len() == 0 {
        Some(seq![])
    } else {
        match plain_names(parts.drop_last()) {
            None => None,
            Some(before) => match parts.last() {
                PartView::Name(s) => Some(before.push(s)),
                PartView::Here => Some(before),
                _ => None,
            },
        }
    }
}

proof fn lemma_plain_names_none(parts: Seq<PartView>, k: int)
    requires
        0 <= k <= parts.len(),
        plain_names(parts.take(k)) is None,
    ensures
        plain_names(parts) is None,
    decreases parts.len() - k,
{
    if k < parts.len() {
        assert(parts.take(k + 1).drop_last() =~= parts.take(k));
        lemma_plain_names_none(parts, k + 1);
    } else {
        assert(parts.take(k) =~= parts);
    }
}

/// The names that `path` is made of; `None` where it is rooted or goes up.
pub fn relative_names(path: &str) -> (r: Option<Vec<String>>)
    ensures
        r is Some <==> plain_names(parts_of(path@)) is Some,
        r matches Some(v) ==> Some(search::texts(v@)) == plain_names(parts_of(path@)),
{
    let parts = path_parts(path);
    let ghost all = parts_of(path@);
    let mut out: Vec<String> = Vec::new();
    let mut i: usize = 0;
    proof {
        assert(all.take(0) =~= seq![]);
        assert(search::texts(out@) =~= Seq::<Seq<char>>::empty());
    }
    while i < parts.len()
        invariant
            i <= parts@.len(),
            all == part_views(parts@),
            plain_names(all.take(i as int)) == Some(search::texts(out@)),
            all == parts_of(path@),
        decreases parts@.len() - i,
    {
        proof {
            assert(all.take(i + 1).drop_last() =~= all.take(i as int));
            assert(all.take(i + 1).last() == parts@[i as int]@);
        }
        match &parts[i] {
            Part::Name(s) => {
                let copy = s.clone();
                proof {
                    search::lemma_texts_push(out@, copy);
                }
                out.push(copy);
            },
            Part::Here => {},
            _ => {
                proof {
                    lemma_plain_names_none(all, i + 1);
                }
                return None;
            },
        }
        i += 1;
    }
    proof {
        assert(all.take(all.len() as int) =~= all);
    }
    Some(out)
}

/// The names among the parts from number `k` on.
pub open spec fn names_from(parts: Seq<PartView>, k: int) -> Seq<Seq<char>>
    decreases parts.len() - k,
{
    if k >= parts.len() {
        seq![]
    } else {
        match parts[k] {
            PartView::Name(s) => seq![s] + names_from(parts, k + 1),
            _ => names_from(parts, k + 1),
        }
    }
}

fn collect_names(parts: &Vec<Part>, from: usize) -> (r: Vec<String>)
    requires
        from <= parts@.len(),
    ensures
        search::texts(r@) == names_from(part_views(parts@), from as int),
{
    let mut out: Vec<String> = Vec::new();
    let ghost all = part_views(parts@);
    let mut i: usize = from;
    proof {
        assert(search::texts(out@) + names_from(all, from as int) =~= names_from(all, from as int));
    }
    while i < parts.len()
        invariant
            from <= i <= parts@.len(),
            all == part_views(parts@),
            search::texts(out@) + names_from(all, i as int) == names_from(all, from as int),
        decreases parts@.len() - i,
    {
        proof {
            assert(all[i as int] == parts@[i as int]@);
        }
        match &parts[i] {
            Part::Name(s) => {
                let copy = s.clone();
                proof {
                    search::lemma_texts_push(out@, copy);
                    assert(search::texts(out@).push(copy@) + names_from(all, i + 1)
                        =~= search::texts(out@) + (
                    seq![copy@] + names_from(all, i + 1)));
                }
                out.push(copy);
            },
            _ => {},
        }
        i += 1;
    }
    proof {
        assert(search::texts(out@) + Seq::<Seq<char>>::empty() =~= search::texts(out@));
    }
    out
}

/// Where a file of an archive goes: its names, without a `dist` at the front.
/// What has no name left goes nowhere.
pub open spec fn archive_target(path: Seq<char>) -> Option<Seq<char>> {
    let parts = parts_of(path);
    let from: int = if parts.len() > 0 && parts[0] == PartView::Name("dist"@) {
        1
    } else {
        0
    };
    let names = names_from(parts, from);
    if names.len() == 0 {
        None
    } else {
        Some(search::joined(names, "/"@))
    }
}

/// Where a file of an archive goes.
pub fn archive_output_path(path: &str) -> (r: Option<String>)
    ensures
        r is Some <==> archive_target(path@) is Some,
        r matches Some(s) ==> Some(s@) == archive_target(path@),
{
    let parts = path_parts(path);
    let mut from: usize = 0;
    proof {
        assert(part_views(parts@).len() == parts@.len());
    }
    if parts.len() > 0 {
        match &parts[0] {
            Part::Name(s) => {
                if same(s.as_str(), "dist") {
                    from = 1;
                }
            },
            _ => {},
        }
        proof {
            assert(parts_of(path@)[0] == parts@[0]@);
        }
    }
    let names = collect_names(&parts, from);
    proof {
        assert(search::texts(names@).len() == names@.len());
    }
    if names.len() == 0 {
        None
    } else {
        Some(join(&names, "/"))
    }
}

/// The name of an asset: the names of its path, with `/` between them and in
/// place of `\`. A path that is rooted, goes up or is empty names none.
pub open spec fn asset_name(path: Seq<char>) -> Option<Seq<char>> {
    match plain_names(parts_of(path)) {
        None => None,
        Some(names) => {
            let s = search::replaced(search::joined(names, "/"@), "\\"@, "/"@);
            if s.len() == 0 {
                None
            } else {
                Some(s)
            }
        },
    }
}

/// The name of an asset.
pub fn normalize_embedded_path(path: &str) -> (r: Option<String>)
    ensures
        r is Some <==> asset_name(path@) is Some,
        r matches Some(s) ==> Some(s@) == asset_name(path@),
{
    proof {
        reveal_strlit("\\");
    }
    match relative_names(path) {
        None => None,
        Some(names) => {
            let plain = join(&names, "/");
            let s = replace(plain.as_str(), "\\", "/");
            if s.as_str().is_empty() {
                None
            } else {
                Some(s)
            }
        },
    }
}

/// `base` with each of `names` behind it.
pub open spec fn extended_path(base: Seq<char>, names: Seq<Seq<char>>) -> Seq<char>
    decreases names.len(),
{
    if names.len() == 0 {
        base
    } else {
        joined_path(extended_path(base, names.drop_last()), names.last())
    }
}

/// `s` without the slashes at its front.
pub open spec fn without_front_slashes(s: Seq<char>) -> Seq<char> {
    text::strip_front(s, |c: char| c == '/')
}

/// The text `s` without the slashes at its front.
pub fn trim_front_slashes(s: &str) -> (r: String)
    ensures
        r@ == without_front_slashes(s@),
{
    let chars = chars_of(s);
    let n: usize = chars.len();
    let mut from: usize = 0;
    let ghost p = |c: char| c == '/';
    proof {
        assert(chars@.skip(0) =~= s@);
    }
    while from < n && chars[from] == '/'
        invariant
            from <= n == chars@.len(),
            p == (|c: char| c == '/'),
            text::strip_front(chars@.skip(from as int), p) == text::strip_front(s@, p),
        decreases n - from,
    {
        proof {
            assert(chars@.skip(from as int).drop_first() =~= chars@.skip(from + 1));
        }
        from += 1;
    }
    let r = string_of_range(&chars, from, n);
    proof {
        assert(r@ =~= chars@.skip(from as int));
    }
    r
}

/// The file that a request is about below `base`, or nothing where the request
/// leads out of it.
pub open spec fn file_below(base: Seq<char>, request: Seq<char>) -> Option<Seq<char>> {
    let relative = without_front_slashes(request);
    if relative.len() == 0 {
        Some(base)
    } else {
        match plain_names(parts_of(relative)) {
            None => None,
            Some(names) => Some(extended_path(base, names)),
        }
    }
}

/// The file that a request is about below `base`.
pub fn frontend_file_path(base: &str, request_path: &str) -> (r: Option<String>)
    ensures
        r is Some <==> file_below(base@, request_path@) is Some,
        r matches Some(s) ==> Some(s@) == file_below(base@, request_path@),
{
    let relative = trim_front_slashes(request_path);
    if relative.as_str().is_empty() {
        return Some(base.to_owned());
    }
    match relative_names(relative.as_str()) {
        None => None,
        Some(names) => {
            let mut path = base.to_owned();
            let ghost all = search::texts(names@);
            let mut i: usize = 0;
            proof {
                assert(all.take(0) =~= seq![]);
            }
            while i < names.len()
                invariant
                    i <= names@.len(),
                    all == search::texts(names@),
                    path@ == extended_path(base@, all.take(i as int)),
                decreases names@.len() - i,
            {
                proof {
                    assert(all.take(i + 1).drop_last() =~= all.take(i as int));
                    assert(all.take(i + 1).last() == names@[i as int]@);
                }
                path = join_path(path.as_str(), names[i].as_str());
                i += 1;
            }
            proof {
                assert(all.take(all.len() as int) =~= all);
            }
            Some(path)
        },
    }
}

/// The files that a request may be about: below the template itself and below
/// the directory of templates. One that is the same is named once.
pub fn frontend_file_paths(static_dir: &str, template: &str, request_path: &str) -> (r: Vec<String>)
    ensures
        search::texts(r@) == ({
            let own = file_below(template@, request_path@);
            let dir = file_below(joined_path(static_dir@, template@), request_path@);
            match (own, dir) {
                (Some(a), Some(b)) => if parts_of(a) == parts_of(b) {
                    seq![a]
                } else {
                    seq![a, b]
                },
                (Some(a), None) => seq![a],
                (None, Some(b)) => seq![b],
                (None, None) => seq![],
            }
        }),
{
    let mut candidates: Vec<String> = Vec::new();
    let own = frontend_file_path(template, request_path);
    let base = join_path(static_dir, template);
    let dir = frontend_file_path(base.as_str(), request_path);
    let ghost a = file_below(template@, request_path@);
    let ghost b = file_below(joined_path(static_dir@, template@), request_path@);
    match own {
        Some(x) => {
            match dir {
                Some(y) => {
                    let equal: bool = same_path(x.as_str(), y.as_str());
                    candidates.push(x);
                    if !equal {
                        candidates.push(y);
                        proof {
                            assert(search::texts(candidates@) =~= seq![a->0, b->0]);
                        }
                    } else {
                        proof {
                            assert(search::texts(candidates@) =~= seq![a->0]);
                        }
                    }
                },
                None => {
                    candidates.push(x);
                    proof {
                        assert(search::texts(candidates@) =~= seq![a->0]);
                    }
                },
            }
        },
        None => match dir {
            Some(y) => {
                candidates.push(y);
                proof {
                    assert(search::texts(candidates@) =~= seq![b->0]);
                }
            },
            None => {
                proof {
                    assert(search::texts(candidates@) =~= seq![]);
                }
            },
        },
    }
    candidates
}

proof fn lemma_piece_parts_never_up(pieces: Seq<Seq<char>>, k: nat, i: int)
    requires
        k <= pieces.len(),
        0 <= i < k,
        pieces[i] == ".."@,
    ensures
        piece_parts(pieces, k).contains(PartView::Up),
    decreases k,
{
    reveal_strlit("..");
    reveal_strlit(".");
    let now = piece_parts(pieces, k);
    let before = piece_parts(pieces, (k - 1) as nat);
    if i < k - 1 {
        lemma_piece_parts_never_up(pieces, (k - 1) as nat, i);
        let j = choose|j: int| 0 <= j < before.len() && before[j] == PartView::Up;
        assert(now[j] == PartView::Up);
    } else {
        assert("."@.len() != ".."@.len());
        assert(now[now.len() - 1] == PartView::Up);
    }
}

proof fn lemma_plain_names_has_no_up(parts: Seq<PartView>, i: int)
    requires
        0 <= i < parts.len(),
        parts[i] == PartView::Up || parts[i] == PartView::Root,
    ensures
        plain_names(parts) is None,
    decreases parts.len(),
{
    if i < parts.len() - 1 {
        lemma_plain_names_has_no_up(parts.drop_last(), i);
    }
}

/// A request that has `..` among its names gets no file, however it is written.
pub proof fn requests_never_go_up(base: Seq<char>, request: Seq<char>, i: int)
    requires
        without_front_slashes(request).len() > 0,
        0 <= i < search::split_on(without_front_slashes(request), '/').len(),
        search::split_on(without_front_slashes(request), '/')[i] == ".."@,
    ensures
        file_below(base, request) is None,
{
    let relative = without_front_slashes(request);
    let pieces = search::split_on(relative, '/');
    lemma_piece_parts_never_up(pieces, pieces.len(), i);
    let names = piece_parts(pieces, pieces.len());
    let j = choose|j: int| 0 <= j < names.len() && names[j] == PartView::Up;
    let parts = parts_of(relative);
    let off = parts.len() - names.len();
    assert(parts[off + j] == PartView::Up);
    lemma_plain_names_has_no_up(parts, off + j);
}

/// The name of the file that a path leads to.
pub open spec fn file_name(parts: Seq<PartView>) -> Option<Seq<char>> {
    if parts.len() == 0 {
        None
    } else {
        match parts.last() {
            PartView::Name(s) => Some(s),
            _ => None,
        }
    }
}

/// Where `c` last occurs among the first `n` characters of `s`, or -1.
pub open spec fn last_index(s: Seq<char>, c: char, n: int) -> int
    decreases n,
{
    if n <= 0 {
        -1
    } else if s[n - 1] == c {
        n - 1
    } else {
        last_index(s, c, n - 1)
    }
}

/// The ending of a file's name: what stands behind its last dot, unless that is
/// at its front.
pub open spec fn ending(name: Seq<char>) -> Seq<char> {
    let dot = last_index(name, '.', name.len() as int);
    if dot <= 0 {
        seq![]
    } else {
        name.skip(dot + 1)
    }
}

/// The ending of the file that a path leads to.
pub open spec fn extension_of(path: Seq<char>) -> Seq<char> {
    match file_name(parts_of(path)) {
        Some(name) => ending(name),
        None => seq![],
    }
}

/// The ending of the file that a path leads to.
pub fn extension(path: &str) -> (r: String)
    ensures
        r@ == extension_of(path@),
{
    let parts = path_parts(path);
    proof {
        assert(part_views(parts@).len() == parts@.len());
    }
    if parts.len() == 0 {
        return String::new();
    }
    proof {
        assert(parts_of(path@).last() == parts@.last()@);
    }
    match &parts[parts.len() - 1] {
        Part::Name(s) => {
            let chars = chars_of(s.as_str());
            let mut n: usize = chars.len();
            while n > 0 && chars[n - 1] != '.'
                invariant
                    n <= chars@.len(),
                    last_index(chars@, '.', n as int) == last_index(
                        chars@,
                        '.',
                        chars@.len() as int,
                    ),
                decreases n,
            {
                n -= 1;
            }
            if n <= 1 {
                return String::new();
            }
            let r = string_of_range(&chars, n, chars.len());
            proof {
                assert(r@ =~= chars@.skip(n as int));
            }
            r
        },
        _ => String::new(),
    }
}

/// The kind of content that a file with this ending has.
pub open spec fn content_type_of(ending: Seq<char>) -> Seq<char> {
    if ending == "html"@ {
        "text/html; charset=utf-8"@
    } else if ending == "js"@ || ending == "mjs"@ {
        "text/javascript; charset=utf-8"@
    } else if ending == "css"@ {
        "text/css; charset=utf-8"@
    } else if ending == "json"@ || ending == "map"@ {
        "application/json; charset=utf-8"@
    } else if ending == "svg"@ {
        "image/svg+xml"@
    } else if ending == "png"@ {
        "image/png"@
    } else if ending == "jpg"@ || ending == "jpeg"@ {
        "image/jpeg"@
    } else if ending == "gif"@ {
        "image/gif"@
    } else if ending == "webp"@ {
        "image/webp"@
    } else if ending == "ico"@ {
        "image/x-icon"@
    } else if ending == "wasm"@ {
        "application/wasm"@
    } else if ending == "woff"@ {
        "font/woff"@
    } else if ending == "woff2"@ {
        "font/woff2"@
    } else if ending == "ttf"@ {
        "font/ttf"@
    } else if ending == "txt"@ {
        "text/plain; charset=utf-8"@
    } else {
        "application/octet-stream"@
    }
}

/// The kind of content that the file has which a path leads to.
pub fn static_content_type(path: &str) -> (r: &'static str)
    ensures
        r@ == content_type_of(extension_of(path@)),
{
    let e = extension(path);
    let ext = e.as_str();
    if same(ext, "html") {
        "text/html; charset=utf-8"
    } else if same(ext, "js") || same(ext, "mjs") {
        "text/javascript; charset=utf-8"
    } else if same(ext, "css") {
        "text/css; charset=utf-8"
    } else if same(ext, "json") || same(ext, "map") {
        "application/json; charset=utf-8"
    } else if same(ext, "svg") {
        "image/svg+xml"
    } else if same(ext, "png") {
        "image/png"
    } else if same(ext, "jpg") || same(ext, "jpeg") {
        "image/jpeg"
    } else if same(ext, "gif") {
        "image/gif"
    } else if same(ext, "webp") {
        "image/webp"
    } else if same(ext, "ico") {
        "image/x-icon"
    } else if same(ext, "wasm") {
        "application/wasm"
    } else if same(ext, "woff") {
        "font/woff"
    } else if same(ext, "woff2") {
        "font/woff2"
    } else if same(ext, "ttf") {
        "font/ttf"
    } else if same(ext, "txt") {
        "text/plain; charset=utf-8"
    } else {
        "application/octet-stream"
    }
}

/// Whether a name is one of a file or a directory, and leads nowhere else.
pub open spec fn is_name(s: Seq<char>) -> bool {
    s.len() > 0 && s != "."@ && s != ".."@ && forall|k: int|
        0 <= k < s.len() ==> #[trigger] s[k] != '/'
}

proof fn lemma_piece_names(path: Seq<char>, n: nat, j: int)
    requires
        n <= search::split_on(path, '/').len(),
        0 <= j < piece_parts(search::split_on(path, '/'), n).len(),
    ensures
        piece_parts(search::split_on(path, '/'), n)[j] matches PartView::Name(s) ==> is_name(s),
    decreases n,
{
    let pieces = search::split_on(path, '/');
    let before = piece_parts(pieces, (n - 1) as nat);
    if j < before.len() {
        lemma_piece_names(path, (n - 1) as nat, j);
    } else {
        let piece = pieces[n - 1];
        assert forall|k: int| 0 <= k < piece.len() implies #[trigger] piece[k] != '/' by {
            search::pieces_hold_no_separator(path, '/', n - 1, k);
        }
    }
}

proof fn lemma_names_from(path: Seq<char>, from: int, i: int)
    requires
        0 <= from,
        0 <= i < names_from(parts_of(path), from).len(),
    ensures
        is_name(names_from(parts_of(path), from)[i]),
    decreases parts_of(path).len() - from,
{
    let parts = parts_of(path);
    let pieces = search::split_on(path, '/');
    let off = parts.len() - piece_parts(pieces, pieces.len()).len();
    if parts[from] is Name {
        if i == 0 {
            lemma_piece_names(path, pieces.len(), from - off);
        } else {
            lemma_names_from(path, from + 1, i - 1);
        }
    } else {
        lemma_names_from(path, from + 1, i);
    }
}

/// Whatever an archive names its files, they are extracted below the directory
/// that they are meant for: where one goes is a way of plain names, joined.
pub proof fn archives_never_go_up(path: Seq<char>)
    requires
        archive_target(path) is Some,
    ensures
        exists|names: Seq<Seq<char>>|
            archive_target(path) == Some(#[trigger] search::joined(names, "/"@)) && names.len() > 0
                && forall|i: int| 0 <= i < names.len() ==> is_name(#[trigger] names[i]),
{
    let parts = parts_of(path);
    let from: int = if parts.len() > 0 && parts[0] == PartView::Name("dist"@) {
        1
    } else {
        0
    };
    let names = names_from(parts, from);
    assert forall|i: int| 0 <= i < names.len() implies is_name(#[trigger] names[i]) by {
        lemma_names_from(path, from, i);
    }
    assert(archive_target(path) == Some(search::joined(names, "/"@)));
}

proof fn lemma_names_are_parts(names: Seq<Seq<char>>, k: nat)
    requires
        k <= names.len(),
        forall|i: int| 0 <= i < names.len() ==> is_name(#[trigger] names[i]),
    ensures
        piece_parts(names, k) == names.take(k as int).map_values(
            |s: Seq<char>| PartView::Name(s),
        ),
    decreases k,
{
    if k > 0 {
        lemma_names_are_parts(names, (k - 1) as nat);
        assert(is_name(names[k - 1]));
        assert(piece_parts(names, k) =~= names.take(k as int).map_values(
            |s: Seq<char>| PartView::Name(s),
        ));
    } else {
        assert(names.take(0).map_values(|s: Seq<char>| PartView::Name(s)) =~= seq![]);
    }
}

/// The parts of names that are joined by `/` are the names.
pub proof fn joined_names_are_parts(names: Seq<Seq<char>>)
    requires
        names.len() > 0,
        forall|i: int| 0 <= i < names.len() ==> is_name(#[trigger] names[i]),
    ensures
        parts_of(search::joined(names, "/"@)) == names.map_values(
            |s: Seq<char>| PartView::Name(s),
        ),
        search::joined(names, "/"@).len() > 0,
        search::joined(names, "/"@)[0] != '/',
{
    reveal_strlit("/");
    assert("/"@ =~= seq!['/']);
    let path = search::joined(names, "/"@);
    assert forall|i: int, k: int|
        0 <= i < names.len() && 0 <= k < names[i].len() implies #[trigger] names[i][k] != '/' by {
        assert(is_name(names[i]));
    }
    search::splitting_undoes_joining(names, '/');
    assert(is_name(names[0]));
    lemma_joined_starts(names);
    lemma_names_are_parts(names, names.len());
    assert(names.take(names.len() as int) =~= names);
    assert(parts_of(path) =~= names.map_values(|s: Seq<char>| PartView::Name(s)));
}

proof fn lemma_joined_starts(names: Seq<Seq<char>>)
    requires
        names.len() > 0,
        names[0].len() > 0,
    ensures
        search::joined(names, "/"@).len() > 0,
        search::joined(names, "/"@)[0] == names[0][0],
    decreases names.len(),
{
    if names.len() > 1 {
        lemma_joined_starts(names.drop_last());
    }
}

proof fn lemma_plain_names(names: Seq<Seq<char>>)
    ensures
        plain_names(names.map_values(|s: Seq<char>| PartView::Name(s))) == Some(names),
    decreases names.len(),
{
    let parts = names.map_values(|s: Seq<char>| PartView::Name(s));
    if names.len() > 0 {
        lemma_plain_names(names.drop_last());
        assert(parts.drop_last() =~= names.drop_last().map_values(
            |s: Seq<char>| PartView::Name(s),
        ));
        assert(names.drop_last().push(names.last()) =~= names);
    } else {
        assert(names =~= seq![]);
    }
}

proof fn lemma_extended(base: Seq<char>, names: Seq<Seq<char>>)
    requires
        base.len() > 0,
        base.last() != '/',
        names.len() > 0,
        forall|i: int| 0 <= i < names.len() ==> is_name(#[trigger] names[i]),
    ensures
        extended_path(base, names) == base + "/"@ + search::joined(names, "/"@),
        extended_path(base, names).last() != '/',
    decreases names.len(),
{
    let front = names.drop_last();
    let last = names.last();
    assert(is_name(names[names.len() - 1]));
    assert(last[0] != '/' && last[last.len() - 1] != '/');
    if front.len() == 0 {
        assert(front =~= seq![]);
        assert(extended_path(base, front) == base);
        assert(extended_path(base, names) == base + "/"@ + last);
    } else {
        assert forall|i: int| 0 <= i < front.len() implies is_name(#[trigger] front[i]) by {
            assert(front[i] == names[i]);
        }
        lemma_extended(base, front);
        assert(extended_path(base, names) =~= base + "/"@ + search::joined(names, "/"@));
    }
}

/// A request for names below a template is about the file of these names below the
/// template's directory; one for nothing is about the directory.
pub proof fn requests_name_files_below(base: Seq<char>, names: Seq<Seq<char>>)
    requires
        base.len() > 0,
        base.last() != '/',
        names.len() > 0,
        forall|i: int| 0 <= i < names.len() ==> is_name(#[trigger] names[i]),
    ensures
        file_below(base, seq!['/'] + search::joined(names, "/"@)) == Some(
            base + "/"@ + search::joined(names, "/"@),
        ),
        file_below(base, search::joined(names, "/"@)) == Some(
            base + "/"@ + search::joined(names, "/"@),
        ),
        file_below(base, seq!['/']) == Some(base),
        file_below(base, seq![]) == Some(base),
{
    let path = search::joined(names, "/"@);
    let slash = |c: char| c == '/';
    joined_names_are_parts(names);
    lemma_plain_names(names);
    lemma_extended(base, names);
    let rooted = seq!['/'] + path;
    assert(rooted.drop_first() =~= path);
    assert(text::strip_front(path, slash) == path);
    assert(text::strip_front(rooted, slash) == text::strip_front(path, slash));
    assert(seq!['/'].drop_first() =~= Seq::<char>::empty());
    assert(text::strip_front(seq!['/'], slash) == text::strip_front(seq![], slash));
}

proof fn lemma_names_from_all(names: Seq<Seq<char>>, from: int)
    requires
        0 <= from <= names.len(),
    ensures
        names_from(names.map_values(|s: Seq<char>| PartView::Name(s)), from) == names.skip(from),
    decreases names.len() - from,
{
    let parts = names.map_values(|s: Seq<char>| PartView::Name(s));
    if from < names.len() {
        lemma_names_from_all(names, from + 1);
        assert(names_from(parts, from) =~= names.skip(from));
    } else {
        assert(names_from(parts, from) =~= names.skip(from));
    }
}

/// A file of an archive goes where its names say, without the directory `dist` that the
/// archive may have around everything.
pub proof fn archives_are_unpacked_without_dist(names: Seq<Seq<char>>)
    requires
        names.len() > 0,
        forall|i: int| 0 <= i < names.len() ==> is_name(#[trigger] names[i]),
    ensures
        names[0] != "dist"@ ==> archive_target(search::joined(names, "/"@)) == Some(
            search::joined(names, "/"@),
        ),
        archive_target(search::joined(seq!["dist"@] + names, "/"@)) == Some(
            search::joined(names, "/"@),
        ),
        archive_target("dist"@) is None,
{
    reveal_strlit("dist");
    reveal_strlit(".");
    reveal_strlit("..");
    let dist = "dist"@;
    assert(dist[0] == 'd' && dist[1] == 'i' && dist[2] == 's' && dist[3] == 't');
    assert(is_name(dist));
    joined_names_are_parts(names);
    lemma_names_from_all(names, 0);
    assert(names.skip(0) =~= names);
    let inner = seq![dist] + names;
    assert forall|i: int| 0 <= i < inner.len() implies is_name(#[trigger] inner[i]) by {
        if i > 0 {
            assert(inner[i] == names[i - 1]);
        }
    }
    joined_names_are_parts(inner);
    lemma_names_from_all(inner, 1);
    assert(inner.skip(1) =~= names);
    let alone = seq![dist];
    joined_names_are_parts(alone);
    lemma_names_from_all(alone, 1);
    assert(search::joined(alone, "/"@) == dist);
}

proof fn lemma_last_dot(name: Seq<char>, end: Seq<char>, n: int)
    requires
        forall|i: int| 0 <= i < end.len() ==> #[trigger] end[i] != '.',
        name.len() + 1 <= n <= name.len() + 1 + end.len(),
    ensures
        last_index(name + seq!['.'] + end, '.', n) == name.len(),
    decreases n,
{
    let s = name + seq!['.'] + end;
    if n > name.len() + 1 {
        assert(s[n - 1] == end[n - 1 - name.len() - 1]);
        lemma_last_dot(name, end, n - 1);
    }
}

/// The ending of a file is what stands behind the last dot of its name, whatever
/// directories it stands in; a name that only begins with a dot has none.
pub proof fn endings_stand_behind_the_last_dot(
    dirs: Seq<Seq<char>>,
    name: Seq<char>,
    end: Seq<char>,
)
    requires
        forall|i: int| 0 <= i < dirs.len() ==> is_name(#[trigger] dirs[i]),
        forall|i: int| 0 <= i < end.len() ==> #[trigger] end[i] != '.' && end[i] != '/',
        forall|i: int| 0 <= i < name.len() ==> #[trigger] name[i] != '/',
        name.len() > 0,
        end.len() > 0,
    ensures
        extension_of(search::joined(dirs.push(name + seq!['.'] + end), "/"@)) == end,
        ending(seq!['.'] + end).len() == 0,
{
    reveal_strlit(".");
    reveal_strlit("..");
    let file = name + seq!['.'] + end;
    lemma_last_dot(name, end, file.len() as int);
    assert(file.skip((name.len() + 1) as int) =~= end);
    lemma_last_dot(seq![], end, (1 + end.len()) as int);
    assert(Seq::<char>::empty() + seq!['.'] + end =~= seq!['.'] + end);
    let all = dirs.push(file);
    assert(is_name(file)) by {
        assert(file.len() >= 3);
        assert forall|k: int| 0 <= k < file.len() implies #[trigger] file[k] != '/' by {
            if k < name.len() {
                assert(file[k] == name[k]);
            } else if k > name.len() {
                assert(file[k] == end[k - name.len() - 1]);
            }
        }
    }
    assert forall|i: int| 0 <= i < all.len() implies is_name(#[trigger] all[i]) by {
        if i < dirs.len() {
            assert(all[i] == dirs[i]);
        }
    }
    joined_names_are_parts(all);
}

proof fn lemma_endings_differ()
    ensures
        "html"@.len() == 4 && "html"@[1] == 't',
        "js"@.len() == 2 && "js"@[1] == 's',
        "mjs"@.len() == 3 && "mjs"@[1] == 'j',
        "css"@.len() == 3 && "css"@[1] == 's',
        "json"@.len() == 4 && "json"@[1] == 's',
        "map"@.len() == 3 && "map"@[1] == 'a',
        "svg"@.len() == 3 && "svg"@[1] == 'v',
        "png"@.len() == 3 && "png"@[1] == 'n',
        "jpg"@.len() == 3 && "jpg"@[1] == 'p',
        "jpeg"@.len() == 4 && "jpeg"@[1] == 'p',
        "gif"@.len() == 3 && "gif"@[1] == 'i',
        "webp"@.len() == 4 && "webp"@[1] == 'e',
        "ico"@.len() == 3 && "ico"@[1] == 'c',
        "wasm"@.len() == 4 && "wasm"@[1] == 'a',
        "woff"@.len() == 4 && "woff"@[1] == 'o',
        "woff2"@.len() == 5 && "woff2"@[1] == 'o',
        "ttf"@.len() == 3 && "ttf"@[1] == 't',
        "txt"@.len() == 3 && "txt"@[1] == 'x',
{
    reveal_strlit("html");
    reveal_strlit("js");
    reveal_strlit("mjs");
    reveal_strlit("css");
    reveal_strlit("json");
    reveal_strlit("map");
    reveal_strlit("svg");
    reveal_strlit("png");
    reveal_strlit("jpg");
    reveal_strlit("jpeg");
    reveal_strlit("gif");
    reveal_strlit("webp");
    reveal_strlit("ico");
    reveal_strlit("wasm");
    reveal_strlit("woff");
    reveal_strlit("woff2");
    reveal_strlit("ttf");
    reveal_strlit("txt");
}

/// Files are told by their ending as the kind of content that they are: pages, scripts,
/// styles, data, images, fonts and texts, each as its own.
pub proof fn endings_tell_the_content()
    ensures
        content_type_of("html"@) == "text/html; charset=utf-8"@,
        content_type_of("js"@) == "text/javascript; charset=utf-8"@,
        content_type_of("mjs"@) == "text/javascript; charset=utf-8"@,
        content_type_of("css"@) == "text/css; charset=utf-8"@,
        content_type_of("json"@) == "application/json; charset=utf-8"@,
        content_type_of("map"@) == "application/json; charset=utf-8"@,
        content_type_of("svg"@) == "image/svg+xml"@,
        content_type_of("png"@) == "image/png"@,
        content_type_of("jpg"@) == "image/jpeg"@,
        content_type_of("jpeg"@) == "image/jpeg"@,
        content_type_of("gif"@) == "image/gif"@,
        content_type_of("webp"@) == "image/webp"@,
        content_type_of("ico"@) == "image/x-icon"@,
        content_type_of("wasm"@) == "application/wasm"@,
        content_type_of("woff"@) == "font/woff"@,
        content_type_of("woff2"@) == "font/woff2"@,
        content_type_of("ttf"@) == "font/ttf"@,
        content_type_of("txt"@) == "text/plain; charset=utf-8"@,
{
    lemma_endings_differ();
}

/// The name of an asset is that of its path, where this is made of plain names; a path
/// that is rooted or goes up names none.
pub proof fn plain_paths_name_assets(names: Seq<Seq<char>>)
    requires
        names.len() > 0,
        forall|i: int| 0 <= i < names.len() ==> is_name(#[trigger] names[i]),
        forall|i: int|
            0 <= i < search::joined(names, "/"@).len() ==> #[trigger] search::joined(names, "/"@)[i]
                != '\\',
    ensures
        asset_name(search::joined(names, "/"@)) == Some(search::joined(names, "/"@)),
        asset_name(seq!['/'] + search::joined(names, "/"@)) is None,
{
    let path = search::joined(names, "/"@);
    joined_names_are_parts(names);
    lemma_plain_names(names);
    reveal_strlit("\\");
    assert forall|at: int| !search::occurs_at(path, "\\"@, at) by {
        if search::occurs_at(path, "\\"@, at) {
            assert(path.subrange(at, at + 1)[0] == '\\');
            assert(path[at] == '\\');
        }
    }
    search::absent_patterns_are_not_replaced(path, "\\"@, "/"@);
    let rooted = seq!['/'] + path;
    assert(parts_of(rooted)[0] == PartView::Root);
    lemma_plain_names_has_no_up(parts_of(rooted), 0);
}

} // verus!
