//! The HTTP face of the local server, as byte-level decision logic: parsing
//! the request target out of a raw request, resolving it to a file under the
//! server root without ever escaping that root, picking a content type, and
//! rendering complete responses. The socket I/O around these functions lives
//! outside the library.

use vstd::prelude::*;

use vstd::string::StringSliceAdditionalSpecFns;

verus! {

/// Element-wise byte equality, stated over the views.
pub fn bytes_eq(a: &[u8], b: &[u8]) -> (r: bool)
    ensures
        r == (a@ == b@),
{
    if a.len() != b.len() {
        assert(a@ != b@);
        return false;
    }
    let mut i: usize = 0;
    while i < a.len()
        invariant
            i <= a.len(),
            a@.len() == b@.len(),
            forall|k: int| 0 <= k < i ==> a@[k] == b@[k],
        decreases a.len() - i,
    {
        if a[i] != b[i] {
            return false;
        }
        i = i + 1;
    }
    assert(a@ =~= b@);
    true
}

/// Byte equality against a literal, stated over the literal's UTF-8 bytes.
pub fn bytes_eq_str(a: &[u8], s: &str) -> (r: bool)
    ensures
        r == (a@ == s.spec_bytes()),
{
    bytes_eq(a, s.as_bytes())
}

/// Appends all of `src` to `dst`.
fn push_all(dst: &mut Vec<u8>, src: &[u8])
    ensures
        final(dst)@ == old(dst)@ + src@,
{
    let ghost dst0 = old(dst)@;
    let mut i: usize = 0;
    while i < src.len()
        invariant
            i <= src.len(),
            dst@ == dst0 + src@.take(i as int),
        decreases src.len() - i,
    {
        dst.push(src[i]);
        assert(dst@ =~= dst0 + src@.take(i as int + 1));
        i = i + 1;
    }
    assert(dst0 + src@.take(src@.len() as int) =~= dst0 + src@);
}

/// The non-empty stretches of `data` between occurrences of `sep`, in order.
pub open spec fn spec_split_from(sep: u8, data: Seq<u8>, cur: Seq<u8>) -> Seq<Seq<u8>>
    decreases data.len(),
{
    if data.len() == 0 {
        if cur.len() == 0 {
            Seq::empty()
        } else {
            seq![cur]
        }
    } else if data[0] == sep {
        if cur.len() == 0 {
            spec_split_from(sep, data.drop_first(), Seq::empty())
        } else {
            seq![cur] + spec_split_from(sep, data.drop_first(), Seq::empty())
        }
    } else {
        spec_split_from(sep, data.drop_first(), cur.push(data[0]))
    }
}

/// Splitting a byte sequence at a separator, empty pieces dropped.
pub open spec fn spec_split(sep: u8, data: Seq<u8>) -> Seq<Seq<u8>> {
    spec_split_from(sep, data, Seq::empty())
}

/// Splits `data` at `sep`, dropping empty pieces.
pub fn split_nonempty(sep: u8, data: &[u8]) -> (r: Vec<Vec<u8>>)
    ensures
        r.deep_view() == spec_split(sep, data@),
{
    let mut out: Vec<Vec<u8>> = Vec::new();
    let mut cur: Vec<u8> = Vec::new();
    let mut i: usize = 0;
    assert(data@.skip(0) =~= data@);
    assert(out.deep_view() + spec_split_from(sep, data@, cur@) =~~= spec_split(sep, data@));
    while i < data.len()
        invariant
            i <= data.len(),
            spec_split(sep, data@) == out.deep_view() + spec_split_from(
                sep,
                data@.skip(i as int),
                cur@,
            ),
        decreases data.len() - i,
    {
        let ghost prev_out = out.deep_view();
        let ghost prev_cur = cur@;
        let ghost rest = data@.skip(i as int);
        assert(rest[0] == data@[i as int]);
        assert(rest.drop_first() =~= data@.skip(i as int + 1));
        let b = data[i];
        if b == sep {
            if cur.len() > 0 {
                assert(spec_split_from(sep, rest, prev_cur) == seq![prev_cur] + spec_split_from(
                    sep,
                    rest.drop_first(),
                    Seq::empty(),
                ));
                let token = cur;
                cur = Vec::new();
                out.push(token);
                assert(out.deep_view() =~~= prev_out.push(prev_cur));
                assert(prev_out + (seq![prev_cur] + spec_split_from(
                    sep,
                    rest.drop_first(),
                    Seq::empty(),
                )) =~~= out.deep_view() + spec_split_from(sep, data@.skip(i as int + 1), cur@));
            } else {
                assert(cur@ =~= Seq::<u8>::empty());
                assert(spec_split_from(sep, rest, prev_cur) == spec_split_from(
                    sep,
                    rest.drop_first(),
                    Seq::empty(),
                ));
            }
        } else {
            cur.push(b);
            assert(spec_split_from(sep, rest, prev_cur) == spec_split_from(
                sep,
                data@.skip(i as int + 1),
                cur@,
            ));
        }
        i = i + 1;
    }
    assert(data@.skip(i as int) =~= Seq::<u8>::empty());
    if cur.len() > 0 {
        let ghost prev_out = out.deep_view();
        let ghost prev_cur = cur@;
        out.push(cur);
        assert(out.deep_view() =~~= prev_out.push(prev_cur));
        assert(prev_out + seq![prev_cur] =~~= out.deep_view());
    } else {
        assert(out.deep_view() + Seq::<Seq<u8>>::empty() =~~= out.deep_view());
    }
    out
}

/// A byte sequence free of a given separator byte.
pub open spec fn free_of(sep: u8, t: Seq<u8>) -> bool {
    forall|i: int| 0 <= i < t.len() ==> t[i] != sep
}

/// All pieces are non-empty and free of the separator.
pub open spec fn pieces_clean(sep: u8, r: Seq<Seq<u8>>) -> bool {
    forall|k: int| 0 <= k < r.len() ==> (#[trigger] r[k]).len() > 0 && free_of(sep, r[k])
}

/// Every piece the splitter yields is non-empty and free of the separator.
pub proof fn lemma_split_pieces_clean(sep: u8, data: Seq<u8>, cur: Seq<u8>)
    requires
        free_of(sep, cur),
    ensures
        pieces_clean(sep, spec_split_from(sep, data, cur)),
    decreases data.len(),
{
    let r = spec_split_from(sep, data, cur);
    if data.len() == 0 {
    } else if data[0] == sep {
        lemma_split_pieces_clean(sep, data.drop_first(), Seq::empty());
        if cur.len() > 0 {
            let rp = spec_split_from(sep, data.drop_first(), Seq::empty());
            assert forall|k: int| 0 <= k < r.len() implies (#[trigger] r[k]).len() > 0 && free_of(
                sep,
                r[k],
            ) by {
                if k == 0 {
                    assert(r[k] == cur);
                } else {
                    assert(r[k] == rp[k - 1]);
                }
            }
        }
    } else {
        assert(free_of(sep, cur.push(data[0])));
        lemma_split_pieces_clean(sep, data.drop_first(), cur.push(data[0]));
    }
}

/// The bytes of the request before its first line break.
pub open spec fn spec_first_line(req: Seq<u8>) -> Seq<u8>
    decreases req.len(),
{
    if req.len() == 0 {
        Seq::empty()
    } else if req[0] == 10u8 {
        Seq::empty()
    } else {
        seq![req[0]] + spec_first_line(req.drop_first())
    }
}

/// The request target: the second space-separated token of the request's
/// first line, with the bare root target `/` standing for the entry document,
/// and the entry document as the default when no target is present.
pub open spec fn spec_request_target(req: Seq<u8>) -> Seq<u8> {
    let tokens = spec_split(32u8, spec_first_line(req));
    if tokens.len() < 2 {
        "/index.html".spec_bytes()
    } else if tokens[1] == "/".spec_bytes() {
        "/index.html".spec_bytes()
    } else {
        tokens[1]
    }
}

/// Extracts the request target from a raw HTTP request: the second token of
/// the request line, defaulting to the entry document.
pub fn parse_request_target(req: &[u8]) -> (r: Vec<u8>)
    ensures
        r@ == spec_request_target(req@),
{
    let mut line: Vec<u8> = Vec::new();
    let mut i: usize = 0;
    assert(req@.skip(0) =~= req@);
    while i < req.len() && req[i] != 10u8
        invariant
            i <= req.len(),
            spec_first_line(req@) == line@ + spec_first_line(req@.skip(i as int)),
            forall|k: int| 0 <= k < i ==> req@[k] != 10u8,
        decreases req.len() - i,
    {
        let ghost rest = req@.skip(i as int);
        assert(rest[0] == req@[i as int]);
        assert(rest.drop_first() =~= req@.skip(i as int + 1));
        line.push(req[i]);
        assert(line@ + spec_first_line(req@.skip(i as int + 1)) =~= spec_first_line(req@));
        i = i + 1;
    }
    proof {
        if i < req@.len() {
            assert(req@.skip(i as int)[0] == req@[i as int]);
            assert(spec_first_line(req@.skip(i as int)) =~= Seq::<u8>::empty());
        } else {
            assert(req@.skip(i as int) =~= Seq::<u8>::empty());
        }
        assert(line@ =~= spec_first_line(req@));
    }
    let tokens = split_nonempty(32u8, line.as_slice());
    if tokens.len() < 2 {
        let mut r: Vec<u8> = Vec::new();
        push_all(&mut r, "/index.html".as_bytes());
        assert(r@ =~= "/index.html".spec_bytes());
        r
    } else {
        assert(tokens@[1].deep_view() =~= tokens@[1]@);
        assert(tokens.deep_view()[1] == tokens@[1].deep_view());
        if bytes_eq_str(tokens[1].as_slice(), "/") {
            let mut r: Vec<u8> = Vec::new();
            push_all(&mut r, "/index.html".as_bytes());
            assert(r@ =~= "/index.html".spec_bytes());
            r
        } else {
            let mut r: Vec<u8> = Vec::new();
            push_all(&mut r, tokens[1].as_slice());
            assert(r@ =~= tokens.deep_view()[1]);
            r
        }
    }
}

/// Path segments processed left to right against a stack: `.` stands still,
/// `..` steps up — escaping the root when there is nothing left to step out
/// of — and any other segment descends.
pub open spec fn spec_normalize(segs: Seq<Seq<u8>>) -> Option<Seq<Seq<u8>>>
    decreases segs.len(),
{
    if segs.len() == 0 {
        Some(Seq::empty())
    } else {
        match spec_normalize(segs.drop_last()) {
            None => None,
            Some(stack) => {
                let s = segs.last();
                if s == ".".spec_bytes() {
                    Some(stack)
                } else if s == "..".spec_bytes() {
                    if stack.len() == 0 {
                        None
                    } else {
                        Some(stack.drop_last())
                    }
                } else {
                    Some(stack.push(s))
                }
            },
        }
    }
}

/// Segments joined as a relative path: a separator before each segment.
pub open spec fn spec_join(stack: Seq<Seq<u8>>) -> Seq<u8>
    decreases stack.len(),
{
    if stack.len() == 0 {
        Seq::empty()
    } else {
        seq![47u8] + stack.first() + spec_join(stack.drop_first())
    }
}

/// Where a request target leads under the server root: its segments,
/// normalized, appended to the root — or nothing, when the target steps out
/// of the root or names no file at all.
pub open spec fn spec_resolve(root: Seq<u8>, target: Seq<u8>) -> Option<Seq<u8>> {
    match spec_normalize(spec_split(47u8, target)) {
        None => None,
        Some(stack) => if stack.len() == 0 {
            None
        } else {
            Some(root + spec_join(stack))
        },
    }
}

proof fn lemma_join_push(stack: Seq<Seq<u8>>, s: Seq<u8>)
    ensures
        spec_join(stack.push(s)) == spec_join(stack) + seq![47u8] + s,
    decreases stack.len(),
{
    if stack.len() == 0 {
        assert(stack.push(s).drop_first() =~= Seq::<Seq<u8>>::empty());
        assert(stack.push(s).first() == s);
        assert(spec_join(Seq::<Seq<u8>>::empty()) == Seq::<u8>::empty());
        assert(spec_join(stack.push(s)) == seq![47u8] + s + Seq::<u8>::empty());
        assert(seq![47u8] + s + Seq::<u8>::empty() =~= Seq::<u8>::empty() + seq![47u8] + s);
        assert(spec_join(stack) == Seq::<u8>::empty());
    } else {
        assert(stack.push(s).drop_first() =~= stack.drop_first().push(s));
        assert(stack.push(s).first() == stack.first());
        lemma_join_push(stack.drop_first(), s);
        assert(seq![47u8] + stack.first() + (spec_join(stack.drop_first()) + seq![47u8] + s)
            =~= spec_join(stack) + seq![47u8] + s);
    }
}

proof fn lemma_normalize_none_extends(segs: Seq<Seq<u8>>, k: int)
    requires
        0 <= k <= segs.len(),
        spec_normalize(segs.take(k)) is None,
    ensures
        spec_normalize(segs) is None,
    decreases segs.len() - k,
{
    if k == segs.len() {
        assert(segs.take(k) =~= segs);
    } else {
        assert(segs.take(k + 1).drop_last() =~= segs.take(k));
        lemma_normalize_none_extends(segs, k + 1);
    }
}

/// Resolves a request target to a concrete path under the server root, or to
/// nothing when the target's segments would step outside the root (or name no
/// file at all). This is the lexical containment check of the static server.
pub fn resolve_static(root: &[u8], target: &[u8]) -> (r: Option<Vec<u8>>)
    ensures
        match r {
            Some(p) => spec_resolve(root@, target@) == Some(p@),
            None => spec_resolve(root@, target@) is None,
        },
{
    let segs = split_nonempty(47u8, target);
    let ghost gsegs = segs.deep_view();
    let mut stack: Vec<Vec<u8>> = Vec::new();
    let mut i: usize = 0;
    assert(gsegs.take(0) =~= Seq::<Seq<u8>>::empty());
    assert(stack.deep_view() =~~= Seq::<Seq<u8>>::empty());
    while i < segs.len()
        invariant
            i <= segs@.len(),
            gsegs == segs.deep_view(),
            gsegs == spec_split(47u8, target@),
            spec_normalize(gsegs.take(i as int)) == Some(stack.deep_view()),
        decreases segs.len() - i,
    {
        proof {
            assert(gsegs.take(i as int + 1).drop_last() =~= gsegs.take(i as int));
            assert(gsegs.take(i as int + 1).last() == gsegs[i as int]);
            assert(segs@[i as int].deep_view() =~= segs@[i as int]@);
            assert(gsegs[i as int] == segs@[i as int].deep_view());
        }
        let s = &segs[i];
        if bytes_eq_str(s.as_slice(), ".") {
        } else if bytes_eq_str(s.as_slice(), "..") {
            if stack.len() == 0 {
                proof {
                    assert(spec_normalize(gsegs.take(i as int + 1)) is None);
                    lemma_normalize_none_extends(gsegs, i as int + 1);
                }
                return None;
            }
            let ghost prev = stack.deep_view();
            stack.pop();
            assert(stack.deep_view() =~~= prev.drop_last());
        } else {
            let mut copy: Vec<u8> = Vec::new();
            push_all(&mut copy, s.as_slice());
            assert(copy@ =~= segs@[i as int]@);
            let ghost prev = stack.deep_view();
            stack.push(copy);
            assert(stack.deep_view() =~~= prev.push(gsegs[i as int]));
        }
        i = i + 1;
    }
    assert(gsegs.take(i as int) =~= gsegs);
    if stack.len() == 0 {
        return None;
    }
    let mut out: Vec<u8> = Vec::new();
    push_all(&mut out, root);
    assert(out@ =~= root@ + spec_join(stack.deep_view().take(0)));
    let ghost gstack = stack.deep_view();
    let mut j: usize = 0;
    while j < stack.len()
        invariant
            j <= stack@.len(),
            gstack == stack.deep_view(),
            out@ == root@ + spec_join(gstack.take(j as int)),
        decreases stack.len() - j,
    {
        proof {
            assert(gstack.take(j as int + 1).drop_last() =~= gstack.take(j as int));
            assert(stack@[j as int].deep_view() =~= stack@[j as int]@);
            assert(gstack[j as int] == stack@[j as int].deep_view());
            lemma_join_push(gstack.take(j as int), gstack[j as int]);
            assert(gstack.take(j as int).push(gstack[j as int]) =~= gstack.take(j as int + 1));
        }
        out.push(47u8);
        push_all(&mut out, stack[j].as_slice());
        assert(out@ =~= root@ + spec_join(gstack.take(j as int + 1)));
        j = j + 1;
    }
    assert(gstack.take(j as int) =~= gstack);
    Some(out)
}

proof fn lemma_normalize_clean(segs: Seq<Seq<u8>>)
    requires
        pieces_clean(47u8, segs),
        spec_normalize(segs) is Some,
    ensures
        pieces_clean(47u8, spec_normalize(segs).unwrap()),
        forall|k: int|
            0 <= k < spec_normalize(segs).unwrap().len() ==> #[trigger] spec_normalize(
                segs,
            ).unwrap()[k] != "..".spec_bytes(),
    decreases segs.len(),
{
    if segs.len() == 0 {
    } else {
        assert(pieces_clean(47u8, segs.drop_last())) by {
            assert(forall|k: int|
                0 <= k < segs.drop_last().len() ==> segs.drop_last()[k] == segs[k]);
        }
        lemma_normalize_clean(segs.drop_last());
        let stack = spec_normalize(segs.drop_last()).unwrap();
        let s = segs.last();
        let out = spec_normalize(segs).unwrap();
        if s == ".".spec_bytes() {
        } else if s == "..".spec_bytes() {
            assert(forall|k: int| 0 <= k < out.len() ==> out[k] == stack[k]);
        } else {
            assert(s == segs[segs.len() - 1]);
            assert(s.len() > 0 && free_of(47u8, s));
            assert(forall|k: int| 0 <= k < out.len() - 1 ==> out[k] == stack[k]);
            assert(out[out.len() - 1] == s);
        }
    }
}

proof fn lemma_split_after_prefix(sep: u8, s: Seq<u8>, tail: Seq<u8>, cur: Seq<u8>)
    requires
        free_of(sep, s),
    ensures
        spec_split_from(sep, s + tail, cur) == spec_split_from(sep, tail, cur + s),
    decreases s.len(),
{
    if s.len() == 0 {
        assert(s + tail =~= tail);
        assert(cur + s =~= cur);
    } else {
        assert((s + tail)[0] == s[0]);
        assert(s[0] != sep);
        assert((s + tail).drop_first() =~= s.drop_first() + tail);
        lemma_split_after_prefix(sep, s.drop_first(), tail, cur.push(s[0]));
        assert(cur.push(s[0]) + s.drop_first() =~= cur + s);
    }
}

proof fn lemma_join_split(stack: Seq<Seq<u8>>)
    requires
        pieces_clean(47u8, stack),
    ensures
        spec_split(47u8, spec_join(stack)) == stack,
    decreases stack.len(),
{
    if stack.len() == 0 {
        assert(spec_split(47u8, spec_join(stack)) =~= stack);
    } else {
        let s0 = stack.first();
        let rest = stack.drop_first();
        assert(s0 == stack[0]);
        assert(s0.len() > 0 && free_of(47u8, s0));
        assert(pieces_clean(47u8, rest)) by {
            assert(forall|k: int| 0 <= k < rest.len() ==> rest[k] == stack[k + 1]);
        }
        let joined = spec_join(stack);
        assert(joined == seq![47u8] + s0 + spec_join(rest));
        assert(joined[0] == 47u8);
        assert(joined.drop_first() =~= s0 + spec_join(rest));
        assert(spec_split(47u8, joined) == spec_split_from(47u8, s0 + spec_join(rest), Seq::empty()));
        lemma_split_after_prefix(47u8, s0, spec_join(rest), Seq::empty());
        assert(Seq::<u8>::empty() + s0 =~= s0);
        lemma_join_split(rest);
        if rest.len() == 0 {
            assert(spec_join(rest) =~= Seq::<u8>::empty());
            assert(spec_split_from(47u8, spec_join(rest), s0) =~= seq![s0]);
            assert(seq![s0] =~= stack);
        } else {
            assert(spec_join(rest)[0] == 47u8);
            assert(spec_split_from(47u8, spec_join(rest), s0) == seq![s0] + spec_split_from(
                47u8,
                spec_join(rest).drop_first(),
                Seq::empty(),
            ));
            assert(spec_split(47u8, spec_join(rest)) == spec_split_from(
                47u8,
                spec_join(rest).drop_first(),
                Seq::empty(),
            ));
            assert(seq![s0] + rest =~= stack);
        }
    }
}

/// A path lexically inside `root`: the root itself, then a separator, then a
/// relative remainder none of whose segments is a parent-directory step.
pub open spec fn contained_in(root: Seq<u8>, p: Seq<u8>) -> bool {
    &&& p.len() > root.len()
    &&& p.subrange(0, root.len() as int) == root
    &&& p[root.len() as int] == 47u8
    &&& forall|k: int|
        0 <= k < spec_split(47u8, p.skip(root.len() as int)).len() ==> #[trigger] spec_split(
            47u8,
            p.skip(root.len() as int),
        )[k] != "..".spec_bytes()
}

/// Containment of static resolution: every target that resolves at all
/// resolves to a path that stays lexically inside the server root. A
/// traversal such as `/../../etc/passwd` resolves to nothing instead.
pub proof fn lemma_resolution_contained(root: Seq<u8>, target: Seq<u8>)
    ensures
        spec_resolve(root, target) matches Some(p) ==> contained_in(root, p),
{
    if spec_resolve(root, target) is Some {
        let segs = spec_split(47u8, target);
        lemma_split_pieces_clean(47u8, target, Seq::empty());
        let stack = spec_normalize(segs).unwrap();
        lemma_normalize_clean(segs);
        let p = root + spec_join(stack);
        assert(stack.len() > 0);
        assert(spec_join(stack) == seq![47u8] + stack.first() + spec_join(stack.drop_first()));
        assert(spec_join(stack).len() > 0);
        assert(p.subrange(0, root.len() as int) =~= root);
        assert(p[root.len() as int] == spec_join(stack)[0]);
        assert(p.skip(root.len() as int) =~= spec_join(stack));
        lemma_join_split(stack);
    }
}

/// Containment, end to end: whatever raw request comes in, the file the
/// static server would serve for it — when one resolves at all — lies inside
/// the server root.
pub proof fn lemma_request_stays_in_root(root: Seq<u8>, req: Seq<u8>)
    ensures
        spec_resolve(root, spec_request_target(req)) matches Some(p) ==> contained_in(root, p),
{
    lemma_resolution_contained(root, spec_request_target(req));
}

/// The bytes after the last occurrence of `sep`; the whole sequence when
/// `sep` does not occur.
pub open spec fn after_last(sep: u8, s: Seq<u8>) -> Seq<u8>
    decreases s.len(),
{
    if s.len() == 0 {
        Seq::empty()
    } else if s.last() == sep {
        Seq::empty()
    } else {
        after_last(sep, s.drop_last()).push(s.last())
    }
}

/// Whether the byte occurs in the sequence.
pub open spec fn spec_has(b: u8, s: Seq<u8>) -> bool {
    exists|i: int| 0 <= i < s.len() && s[i] == b
}

/// The extension of the file a path names: what follows the last dot of the
/// file name, provided that dot is neither the name's first character (a
/// hidden file has no extension) nor absent.
pub open spec fn spec_extension(p: Seq<u8>) -> Option<Seq<u8>> {
    let name = after_last(47u8, p);
    let ext = after_last(46u8, name);
    if spec_has(46u8, name) && ext.len() + 1 < name.len() {
        Some(ext)
    } else {
        None
    }
}

/// The content type served for a file extension; an unknown or missing
/// extension falls back to plain text rather than failing.
pub open spec fn spec_content_type(ext: Option<Seq<u8>>) -> Seq<char> {
    match ext {
        Some(e) => {
            if e == "html".spec_bytes() {
                "text/html"@
            } else if e == "css".spec_bytes() {
                "text/css"@
            } else if e == "js".spec_bytes() {
                "application/javascript"@
            } else if e == "json".spec_bytes() {
                "application/json"@
            } else if e == "png".spec_bytes() {
                "image/png"@
            } else if e == "jpg".spec_bytes() || e == "jpeg".spec_bytes() {
                "image/jpeg"@
            } else if e == "gif".spec_bytes() {
                "image/gif"@
            } else if e == "svg".spec_bytes() {
                "image/svg+xml"@
            } else if e == "woff".spec_bytes() {
                "font/woff"@
            } else if e == "woff2".spec_bytes() {
                "font/woff2"@
            } else {
                "text/plain"@
            }
        },
        None => "text/plain"@,
    }
}

proof fn lemma_after_last_at(sep: u8, s: Seq<u8>, j: int)
    requires
        0 <= j < s.len(),
        s[j] == sep,
        forall|i: int| j < i < s.len() ==> s[i] != sep,
    ensures
        after_last(sep, s) == s.skip(j + 1),
    decreases s.len(),
{
    if j == s.len() - 1 {
        assert(s.last() == sep);
        assert(s.skip(j + 1) =~= Seq::<u8>::empty());
    } else {
        assert(s.last() != sep);
        lemma_after_last_at(sep, s.drop_last(), j);
        assert(s.drop_last().skip(j + 1) =~= s.skip(j + 1).drop_last());
        assert(s.skip(j + 1).drop_last().push(s.last()) =~= s.skip(j + 1));
    }
}

proof fn lemma_after_last_none(sep: u8, s: Seq<u8>)
    requires
        free_of(sep, s),
    ensures
        after_last(sep, s) == s,
    decreases s.len(),
{
    if s.len() > 0 {
        assert(free_of(sep, s.drop_last()));
        lemma_after_last_none(sep, s.drop_last());
        assert(s.drop_last().push(s.last()) =~= s);
    }
}

/// The index right after the last occurrence of `sep`, or 0 when absent, so
/// that the suffix from the result equals `after_last(sep, s@)`.
fn find_suffix_start(sep: u8, s: &[u8]) -> (r: usize)
    ensures
        r <= s@.len(),
        after_last(sep, s@) == s@.skip(r as int),
        r > 0 ==> s@[r as int - 1] == sep,
        forall|i: int| r <= i < s@.len() ==> s@[i] != sep,
{
    let mut k: usize = s.len();
    while k > 0
        invariant
            k <= s@.len(),
            forall|i: int| k <= i < s@.len() ==> s@[i] != sep,
        decreases k,
    {
        if s[k - 1] == sep {
            proof {
                lemma_after_last_at(sep, s@, k as int - 1);
            }
            return k;
        }
        k = k - 1;
    }
    proof {
        lemma_after_last_none(sep, s@);
        assert(s@.skip(0) =~= s@);
    }
    0
}

/// The content type for the file a resolved path names, from its extension;
/// unknown extensions default to plain text.
pub fn content_type_for(path: &[u8]) -> (r: &'static str)
    ensures
        r@ == spec_content_type(spec_extension(path@)),
{
    let ghost name = after_last(47u8, path@);
    let ns = find_suffix_start(47u8, path);
    assert(name == path@.skip(ns as int));
    let d = find_suffix_start_from(46u8, path, ns);
    let ghost ext = after_last(46u8, name);
    if d == ns || d == ns + 1 {
        // no dot in the name, or only a leading dot: no extension
        proof {
            if d == ns {
                assert(!spec_has(46u8, name)) by {
                    assert(forall|i: int| 0 <= i < name.len() ==> name[i] == path@[ns + i]);
                }
            } else {
                assert(path@[ns as int] == 46u8);
                assert(name[0] == 46u8);
                assert(spec_has(46u8, name));
                assert(ext =~= name.skip(1));
            }
        }
        return "text/plain";
    }
    proof {
        assert(path@[d - 1] == 46u8);
        assert(name[d - 1 - ns] == 46u8);
        assert(spec_has(46u8, name));
        assert(ext =~= name.skip(d as int - ns));
        assert(ext.len() + 1 < name.len());
        assert(spec_extension(path@) == Some(ext));
        assert(path@.subrange(d as int, path@.len() as int) =~= ext);
    }
    let e: &[u8] = &path[d..path.len()];
    if bytes_eq_str(e, "html") {
        "text/html"
    } else if bytes_eq_str(e, "css") {
        "text/css"
    } else if bytes_eq_str(e, "js") {
        "application/javascript"
    } else if bytes_eq_str(e, "json") {
        "application/json"
    } else if bytes_eq_str(e, "png") {
        "image/png"
    } else if bytes_eq_str(e, "jpg") {
        "image/jpeg"
    } else if bytes_eq_str(e, "jpeg") {
        "image/jpeg"
    } else if bytes_eq_str(e, "gif") {
        "image/gif"
    } else if bytes_eq_str(e, "svg") {
        "image/svg+xml"
    } else if bytes_eq_str(e, "woff") {
        "font/woff"
    } else if bytes_eq_str(e, "woff2") {
        "font/woff2"
    } else {
        "text/plain"
    }
}

/// As `find_suffix_start`, but scanning only the suffix from `from`, so that
/// the result locates the last occurrence within that suffix.
fn find_suffix_start_from(sep: u8, s: &[u8], from: usize) -> (r: usize)
    requires
        from <= s@.len(),
    ensures
        from <= r <= s@.len(),
        after_last(sep, s@.skip(from as int)) == s@.skip(r as int),
        r > from ==> s@[r as int - 1] == sep,
        forall|i: int| r <= i < s@.len() ==> s@[i] != sep,
{
    let ghost suffix = s@.skip(from as int);
    let mut k: usize = s.len();
    while k > from
        invariant
            from <= k <= s@.len(),
            suffix == s@.skip(from as int),
            forall|i: int| k <= i < s@.len() ==> s@[i] != sep,
        decreases k,
    {
        if s[k - 1] == sep {
            proof {
                assert(suffix[k - 1 - from] == sep);
                assert(forall|i: int|
                    k - from <= i < suffix.len() ==> suffix[i] == s@[from + i] && s@[from + i]
                        != sep);
                lemma_after_last_at(sep, suffix, k as int - 1 - from);
                assert(suffix.skip(k as int - from) =~= s@.skip(k as int));
            }
            return k;
        }
        k = k - 1;
    }
    proof {
        assert(forall|i: int| 0 <= i < suffix.len() ==> suffix[i] == s@[from + i]);
        assert(free_of(sep, suffix));
        lemma_after_last_none(sep, suffix);
    }
    from
}

/// The decimal digits of a number, most significant first.
pub open spec fn spec_dec(n: nat) -> Seq<u8>
    decreases n,
{
    if n < 10 {
        seq![(48 + n) as u8]
    } else {
        spec_dec(n / 10).push((48 + n % 10) as u8)
    }
}

/// Renders a number as its decimal digits.
pub fn dec_of(n: usize) -> (r: Vec<u8>)
    ensures
        r@ == spec_dec(n as nat),
    decreases n,
{
    if n < 10 {
        let mut r: Vec<u8> = Vec::new();
        r.push(48 + n as u8);
        assert(r@ =~= spec_dec(n as nat));
        r
    } else {
        let mut r = dec_of(n / 10);
        r.push(48 + (n % 10) as u8);
        r
    }
}

/// A complete response head: status line, content type, and content length,
/// each on its own header line, ended by the blank line.
pub open spec fn spec_head(status: Seq<char>, ctype: Seq<char>, len: nat) -> Seq<u8> {
    "HTTP/1.1 ".spec_bytes() + vstd::utf8::encode_utf8(status) + "\r\nContent-Type: ".spec_bytes()
        + vstd::utf8::encode_utf8(ctype) + "\r\nContent-Length: ".spec_bytes() + spec_dec(len)
        + "\r\n\r\n".spec_bytes()
}

/// Renders a response head for the given status line, content type, and body
/// length.
fn render_head(status: &str, ctype: &str, body_len: usize) -> (r: Vec<u8>)
    ensures
        r@ == spec_head(status@, ctype@, body_len as nat),
{
    let mut r: Vec<u8> = Vec::new();
    push_all(&mut r, "HTTP/1.1 ".as_bytes());
    push_all(&mut r, status.as_bytes());
    push_all(&mut r, "\r\nContent-Type: ".as_bytes());
    push_all(&mut r, ctype.as_bytes());
    push_all(&mut r, "\r\nContent-Length: ".as_bytes());
    let digits = dec_of(body_len);
    push_all(&mut r, digits.as_slice());
    push_all(&mut r, "\r\n\r\n".as_bytes());
    assert(r@ =~= spec_head(status@, ctype@, body_len as nat));
    r
}

/// The complete success response for a served file: a 200 head with the
/// file's content type and length, followed by the file's bytes.
pub fn file_response(path: &[u8], content: &[u8]) -> (r: Vec<u8>)
    ensures
        r@ == spec_head(
            "200 OK"@,
            spec_content_type(spec_extension(path@)),
            content@.len(),
        ) + content@,
{
    let ct = content_type_for(path);
    let mut r = render_head("200 OK", ct, content.len());
    push_all(&mut r, content);
    r
}

/// The complete response when the target does not resolve to a file under the
/// root, or the file cannot be read.
pub fn not_found_response() -> (r: Vec<u8>)
    ensures
        r@ == spec_head("404 NOT FOUND"@, "text/plain"@, "404 Not Found".spec_bytes().len())
            + "404 Not Found".spec_bytes(),
{
    let body = "404 Not Found".as_bytes();
    let mut r = render_head("404 NOT FOUND", "text/plain", body.len());
    push_all(&mut r, body);
    r
}

} // verus!
