//! URI remapping between `source://` and `file://`.
//!
//! Editor clients speak in project-relative `source://` URIs; the language
//! server wants absolute `file://` URIs under the project root (an absolute
//! `file://` directory URL with a trailing slash). Toward the server every
//! `source://` URI is resolved against the root, normalizing `.` and `..`
//! segments and refusing paths that escape the root. Toward the client every
//! `file://` URI that lies under the root becomes `source://` again. URIs of
//! any other shape pass through unchanged.

use vstd::prelude::*;

use crate::config::clone_chars;
use crate::json::{json_model, Json, JsonModel};
use crate::util::{append_chars, chars_eq, str_to_chars, take_chars};

verus! {

broadcast use vstd::std_specs::vec::axiom_vec_index_decreases, vstd::seq::axiom_seq_index_decreases;

/// A `source://` URI resolved outside the project root.
#[derive(Clone, Copy, PartialEq, Eq, Structural, Debug)]
pub struct RemapError;

pub open spec fn source_scheme() -> Seq<char> {
    "source://"@
}

pub open spec fn has_prefix(s: Seq<char>, pre: Seq<char>) -> bool {
    s.len() >= pre.len() && s.take(pre.len() as int) == pre
}

/// Splits from `p`, with `cur` the segment read so far.
pub open spec fn split_rec(p: Seq<char>, cur: Seq<char>) -> Seq<Seq<char>>
    decreases p.len(),
{
    if p.len() == 0 {
        seq![cur]
    } else if p[0] == '/' {
        seq![cur] + split_rec(p.drop_first(), Seq::empty())
    } else {
        split_rec(p.drop_first(), cur.push(p[0]))
    }
}

/// The `/`-separated segments of `p`.
pub open spec fn split_segs(p: Seq<char>) -> Seq<Seq<char>> {
    split_rec(p, Seq::empty())
}

/// The segments joined with `/` between them.
pub open spec fn join_segs(segs: Seq<Seq<char>>) -> Seq<char>
    decreases segs.len(),
{
    if segs.len() == 0 {
        Seq::empty()
    } else if segs.len() == 1 {
        segs[0]
    } else {
        join_segs(segs.drop_last()) + seq!['/'] + segs.last()
    }
}

/// Resolves `.` and `..` segments against `stack`; `None` when `..` reaches
/// above the start, the path-escape case.
pub open spec fn norm_rec(segs: Seq<Seq<char>>, stack: Seq<Seq<char>>) -> Option<Seq<Seq<char>>>
    decreases segs.len(),
{
    if segs.len() == 0 {
        Some(stack)
    } else if segs[0] == ".."@ {
        if stack.len() == 0 {
            None
        } else {
            norm_rec(segs.drop_first(), stack.drop_last())
        }
    } else if segs[0] == "."@ || segs[0].len() == 0 {
        norm_rec(segs.drop_first(), stack)
    } else {
        norm_rec(segs.drop_first(), stack.push(segs[0]))
    }
}

/// The `file://` URI a `source://` URI maps to, or `None` on escape; URIs of
/// any other scheme pass through.
pub open spec fn spec_remap_to_file(uri: Seq<char>, root: Seq<char>) -> Option<Seq<char>> {
    if has_prefix(uri, source_scheme()) {
        match norm_rec(split_segs(uri.skip(source_scheme().len() as int)), Seq::empty()) {
            Some(segs) => Some(root + join_segs(segs)),
            None => None,
        }
    } else {
        Some(uri)
    }
}

/// The `source://` URI a `file://` URI under the root maps back to; others
/// pass through.
pub open spec fn spec_remap_to_source(uri: Seq<char>, root: Seq<char>) -> Seq<char> {
    if has_prefix(uri, root) && uri.len() > root.len() {
        source_scheme() + uri.skip(root.len() as int)
    } else {
        uri
    }
}

/// A path segment that normalization keeps as it is.
pub open spec fn normal_seg(s: Seq<char>) -> bool {
    s.len() > 0 && s != "."@ && s != ".."@
}

pub open spec fn normal_segs(segs: Seq<Seq<char>>) -> bool {
    forall|i: int| 0 <= i < segs.len() ==> normal_seg(#[trigger] segs[i])
}

/// Splitting yields at least one segment.
proof fn lemma_split_rec_len(p: Seq<char>, cur: Seq<char>)
    ensures
        split_rec(p, cur).len() >= 1,
    decreases p.len(),
{
    if p.len() > 0 {
        if p[0] == '/' {
            lemma_split_rec_len(p.drop_first(), Seq::empty());
        } else {
            lemma_split_rec_len(p.drop_first(), cur.push(p[0]));
        }
    }
}

/// Joining nonempty lists distributes over concatenation.
proof fn lemma_join_concat(a: Seq<Seq<char>>, b: Seq<Seq<char>>)
    requires
        a.len() > 0,
        b.len() > 0,
    ensures
        join_segs(a + b) == join_segs(a) + seq!['/'] + join_segs(b),
    decreases b.len(),
{
    if b.len() == 1 {
        assert((a + b).drop_last() =~= a);
        assert((a + b).last() == b[0]);
        assert(join_segs(b) == b[0]);
    } else {
        lemma_join_concat(a, b.drop_last());
        assert((a + b).drop_last() =~= a + b.drop_last());
        assert((a + b).last() == b.last());
        assert(join_segs(a) + seq!['/'] + (join_segs(b.drop_last()) + seq!['/'] + b.last()) =~= (
        join_segs(a) + seq!['/'] + join_segs(b.drop_last())) + seq!['/'] + b.last());
    }
}

/// Joining the split of a path gives the path back.
proof fn lemma_join_split_rec(p: Seq<char>, cur: Seq<char>)
    ensures
        join_segs(split_rec(p, cur)) == cur + p,
    decreases p.len(),
{
    if p.len() == 0 {
        assert(join_segs(seq![cur]) == cur);
        assert(cur + p =~= cur);
    } else if p[0] == '/' {
        lemma_join_split_rec(p.drop_first(), Seq::empty());
        lemma_split_rec_len(p.drop_first(), Seq::empty());
        lemma_join_concat(seq![cur], split_rec(p.drop_first(), Seq::empty()));
        assert(join_segs(seq![cur]) == cur);
        assert(Seq::<char>::empty() + p.drop_first() =~= p.drop_first());
        assert(cur + seq!['/'] + p.drop_first() =~= cur + p);
    } else {
        lemma_join_split_rec(p.drop_first(), cur.push(p[0]));
        assert(cur.push(p[0]) + p.drop_first() =~= cur + p);
    }
}

pub proof fn lemma_join_split(p: Seq<char>)
    ensures
        join_segs(split_segs(p)) == p,
{
    lemma_join_split_rec(p, Seq::empty());
    assert(Seq::<char>::empty() + p =~= p);
}

/// Normal segments pass through normalization untouched.
proof fn lemma_norm_normal(segs: Seq<Seq<char>>, stack: Seq<Seq<char>>)
    requires
        normal_segs(segs),
    ensures
        norm_rec(segs, stack) == Some(stack + segs),
    decreases segs.len(),
{
    if segs.len() == 0 {
        assert(stack + segs =~= stack);
    } else {
        assert(normal_seg(segs[0]));
        assert(normal_segs(segs.drop_first())) by {
            assert(forall|i: int|
                0 <= i < segs.len() - 1 ==> segs.drop_first()[i] == segs[i + 1]);
        }
        lemma_norm_normal(segs.drop_first(), stack.push(segs[0]));
        assert(stack.push(segs[0]) + segs.drop_first() =~= stack + segs);
    }
}

/// Remapping inverse, toward the client and back: a `file://` URI strictly
/// inside the root comes back unchanged from a round trip through
/// `source://`. `rel` is the path under the root, already in normal form:
/// no empty, `.` or `..` segments.
pub proof fn lemma_remap_round_trip_file(root: Seq<char>, rel: Seq<char>)
    requires
        rel.len() > 0,
        normal_segs(split_segs(rel)),
    ensures
        spec_remap_to_file(spec_remap_to_source(root + rel, root), root) == Some(root + rel),
{
    let uri = root + rel;
    assert(uri.take(root.len() as int) =~= root);
    assert(has_prefix(uri, root));
    assert(uri.len() > root.len());
    let s = spec_remap_to_source(uri, root);
    assert(uri.skip(root.len() as int) =~= rel);
    assert(s == source_scheme() + rel);
    proof_remap_source_of_normal(root, rel);
}

/// A normal relative path prefixed with the scheme maps to the root-joined
/// path.
proof fn proof_remap_source_of_normal(root: Seq<char>, rel: Seq<char>)
    requires
        rel.len() > 0,
        normal_segs(split_segs(rel)),
    ensures
        spec_remap_to_file(source_scheme() + rel, root) == Some(root + rel),
{
    let s = source_scheme() + rel;
    assert(s.take(source_scheme().len() as int) =~= source_scheme());
    assert(has_prefix(s, source_scheme()));
    assert(s.skip(source_scheme().len() as int) =~= rel);
    lemma_norm_normal(split_segs(rel), Seq::empty());
    assert(Seq::<Seq<char>>::empty() + split_segs(rel) =~= split_segs(rel));
    lemma_join_split(rel);
}

/// Remapping inverse, toward the server and back: a normal `source://` URI
/// comes back unchanged from a round trip through `file://`.
pub proof fn lemma_remap_round_trip_source(root: Seq<char>, rel: Seq<char>)
    requires
        rel.len() > 0,
        normal_segs(split_segs(rel)),
    ensures
        spec_remap_to_file(source_scheme() + rel, root) == Some(root + rel),
        spec_remap_to_source(root + rel, root) == source_scheme() + rel,
{
    proof_remap_source_of_normal(root, rel);
    let uri = root + rel;
    assert(uri.take(root.len() as int) =~= root);
    assert(uri.skip(root.len() as int) =~= rel);
}

/// A `source://` URI that escapes the root is refused.
pub proof fn lemma_remap_escape(root: Seq<char>, q: Seq<char>)
    requires
        norm_rec(split_segs(q), Seq::empty()) is None,
    ensures
        spec_remap_to_file(source_scheme() + q, root) is None,
{
    let s = source_scheme() + q;
    assert(s.take(source_scheme().len() as int) =~= source_scheme());
    assert(has_prefix(s, source_scheme()));
    assert(s.skip(source_scheme().len() as int) =~= q);
}

/// Whether `v` starts with `pre`.
pub fn starts_with(v: &[char], pre: &[char]) -> (r: bool)
    ensures
        r == has_prefix(v@, pre@),
{
    if v.len() < pre.len() {
        return false;
    }
    let mut i: usize = 0;
    #[verifier::loop_isolation(false)]
    while i < pre.len()
        invariant
            i <= pre.len() <= v.len(),
            forall|k: int| 0 <= k < i ==> v@[k] == pre@[k],
        decreases pre.len() - i,
    {
        if v[i] != pre[i] {
            proof {
                assert(v@.take(pre@.len() as int)[i as int] != pre@[i as int]);
            }
            return false;
        }
        i += 1;
    }
    proof {
        assert(v@.take(pre@.len() as int) =~= pre@);
    }
    true
}

/// The segments of a relative path.
fn split_path(p: &[char]) -> (r: Vec<Vec<char>>)
    ensures
        crate::config::command_model(r) == split_segs(p@),
{
    let mut done: Vec<Vec<char>> = Vec::new();
    let mut cur: Vec<char> = Vec::new();
    let mut i: usize = 0;
    proof {
        assert(p@.skip(0) =~= p@);
        assert(crate::config::command_model(done).len() == 0);
    }
    #[verifier::loop_isolation(false)]
    while i < p.len()
        invariant
            i <= p.len(),
            crate::config::command_model(done).len() == done.len(),
            split_segs(p@) == crate::config::command_model(done) + split_rec(
                p@.skip(i as int),
                cur@,
            ),
        decreases p.len() - i,
    {
        proof {
            assert(p@.skip(i as int).drop_first() =~= p@.skip(i as int + 1));
        }
        if p[i] == '/' {
            let ghost prev = crate::config::command_model(done);
            done.push(cur);
            proof {
                assert(crate::config::command_model(done) =~= prev + seq![cur@]);
                assert((prev + seq![cur@]) + split_rec(p@.skip(i as int + 1), Seq::empty()) =~= prev
                    + (seq![cur@] + split_rec(p@.skip(i as int + 1), Seq::empty())));
            }
            cur = Vec::new();
        } else {
            cur.push(p[i]);
        }
        i += 1;
    }
    proof {
        assert(p@.skip(i as int).len() == 0);
        assert(split_rec(p@.skip(i as int), cur@) == seq![cur@]);
    }
    let ghost prev = crate::config::command_model(done);
    done.push(cur);
    proof {
        assert(crate::config::command_model(done) =~= prev + seq![cur@]);
    }
    done
}

/// Resolves `.` and `..` segments, refusing a path that escapes.
fn normalize_path(segs: Vec<Vec<char>>) -> (r: Option<Vec<Vec<char>>>)
    ensures
        match r {
            Some(v) => norm_rec(crate::config::command_model(segs), Seq::empty()) == Some(
                crate::config::command_model(v),
            ),
            None => norm_rec(crate::config::command_model(segs), Seq::empty()) is None,
        },
{
    let ghost m = crate::config::command_model(segs);
    let dot = str_to_chars(".");
    let dotdot = str_to_chars("..");
    let mut stack: Vec<Vec<char>> = Vec::new();
    let mut i: usize = 0;
    proof {
        assert(m.skip(0) =~= m);
        assert(crate::config::command_model(stack) =~= Seq::<Seq<char>>::empty());
    }
    #[verifier::loop_isolation(false)]
    while i < segs.len()
        invariant
            i <= segs.len(),
            dot@ == "."@,
            dotdot@ == ".."@,
            m.len() == segs.len(),
            forall|k: int| 0 <= k < segs.len() ==> m[k] == segs[k]@,
            crate::config::command_model(stack).len() == stack.len(),
            norm_rec(m, Seq::empty()) == norm_rec(
                m.skip(i as int),
                crate::config::command_model(stack),
            ),
        decreases segs.len() - i,
    {
        proof {
            assert(m.skip(i as int)[0] == m[i as int]);
            assert(m.skip(i as int).drop_first() =~= m.skip(i as int + 1));
        }
        let seg = &segs[i];
        if chars_eq(seg.as_slice(), dotdot.as_slice()) {
            if stack.len() == 0 {
                return None;
            }
            let ghost prev = crate::config::command_model(stack);
            let _ = stack.pop();
            proof {
                assert(crate::config::command_model(stack) =~= prev.drop_last());
            }
        } else if chars_eq(seg.as_slice(), dot.as_slice()) || seg.len() == 0 {
        } else {
            let ghost prev = crate::config::command_model(stack);
            stack.push(crate::config::clone_chars(seg));
            proof {
                assert(crate::config::command_model(stack) =~= prev.push(m[i as int]));
            }
        }
        i += 1;
    }
    proof {
        assert(m.skip(i as int).len() == 0);
    }
    Some(stack)
}

/// Joins segments with `/` between them.
fn join_path(segs: &Vec<Vec<char>>) -> (r: Vec<char>)
    ensures
        r@ == join_segs(crate::config::command_model(*segs)),
{
    let ghost m = crate::config::command_model(*segs);
    let mut out: Vec<char> = Vec::new();
    let mut i: usize = 0;
    #[verifier::loop_isolation(false)]
    while i < segs.len()
        invariant
            i <= segs.len(),
            m.len() == segs.len(),
            forall|k: int| 0 <= k < segs.len() ==> m[k] == segs[k]@,
            out@ == join_segs(m.take(i as int)),
        decreases segs.len() - i,
    {
        proof {
            assert(m.take(i as int + 1).drop_last() =~= m.take(i as int));
            assert(m.take(i as int + 1).last() == m[i as int]);
        }
        if i > 0 {
            let slash = str_to_chars("/");
            proof {
                reveal_strlit("/");
            }
            append_chars(&mut out, slash.as_slice());
        }
        append_chars(&mut out, segs[i].as_slice());
        proof {
            if i == 0 {
                assert(join_segs(m.take(1)) == m.take(1)[0]);
                assert(out@ =~= join_segs(m.take(1)));
            } else {
                assert(out@ =~= join_segs(m.take(i as int)) + seq!['/'] + m[i as int]);
            }
        }
        i += 1;
    }
    proof {
        assert(m.take(i as int) =~= m);
    }
    out
}

/// Resolves a URI toward the server: `source://` becomes `file://` under the
/// root, or fails when the path escapes the root.
pub fn remap_uri_to_file(uri: &[char], root: &[char]) -> (r: Result<Vec<char>, RemapError>)
    ensures
        match r {
            Ok(out) => spec_remap_to_file(uri@, root@) == Some(out@),
            Err(_) => spec_remap_to_file(uri@, root@) is None,
        },
{
    let scheme = str_to_chars("source://");
    if !starts_with(uri, scheme.as_slice()) {
        return Ok(take_chars(uri, uri.len()));
    }
    let rel = vstd::slice::slice_subrange(uri, scheme.len(), uri.len());
    proof {
        assert(rel@ =~= uri@.skip(source_scheme().len() as int));
    }
    let segs = split_path(rel);
    let segs = match normalize_path(segs) {
        Some(s) => s,
        None => {
            return Err(RemapError);
        },
    };
    let mut out = take_chars(root, root.len());
    let joined = join_path(&segs);
    append_chars(&mut out, joined.as_slice());
    proof {
        assert(uri@.take(uri@.len() as int) =~= uri@);
    }
    Ok(out)
}

/// Translates a URI toward the client: `file://` under the root becomes
/// `source://`.
pub fn remap_uri_to_source(uri: &[char], root: &[char]) -> (r: Vec<char>)
    ensures
        r@ == spec_remap_to_source(uri@, root@),
{
    if starts_with(uri, root) && uri.len() > root.len() {
        let mut out = str_to_chars("source://");
        let rel = vstd::slice::slice_subrange(uri, root.len(), uri.len());
        append_chars(&mut out, rel);
        proof {
            assert(rel@ =~= uri@.skip(root@.len() as int));
        }
        out
    } else {
        proof {
            assert(uri@.take(uri@.len() as int) =~= uri@);
        }
        take_chars(uri, uri.len())
    }
}

/// Which way a message is crossing the bridge.
#[derive(Clone, Copy, PartialEq, Eq, Structural, Debug)]
pub enum RemapDirection {
    /// Client to server: resolve `source://` to `file://`.
    ToFile,
    /// Server to client: fold `file://` under the root back to `source://`.
    ToSource,
}

/// The remapped form of one URI string, `None` on escape.
pub open spec fn spec_rewrite_uri(
    dir: RemapDirection,
    s: Seq<char>,
    root: Seq<char>,
) -> Option<Seq<char>> {
    match dir {
        RemapDirection::ToFile => spec_remap_to_file(s, root),
        RemapDirection::ToSource => Some(spec_remap_to_source(s, root)),
    }
}

pub open spec fn uri_key() -> Seq<char> {
    "uri"@
}

/// Every `uri` string field in the subtree remaps without escaping.
pub open spec fn walk_ok(dir: RemapDirection, m: JsonModel, root: Seq<char>) -> bool
    decreases m,
{
    match m {
        JsonModel::Arr(items) => forall|i: int|
            0 <= i < items.len() ==> walk_ok(dir, #[trigger] items[i], root),
        JsonModel::Obj(fields) => forall|i: int|
            0 <= i < fields.len() ==> (if (#[trigger] fields[i]).0 == uri_key()
                && fields[i].1 is Str {
                spec_rewrite_uri(dir, fields[i].1->Str_0, root) is Some
            } else {
                walk_ok(dir, fields[i].1, root)
            }),
        _ => true,
    }
}

/// The subtree with every `uri` string field remapped.
pub open spec fn walk_rewrite(dir: RemapDirection, m: JsonModel, root: Seq<char>) -> JsonModel
    decreases m,
{
    match m {
        JsonModel::Arr(items) => JsonModel::Arr(
            Seq::new(
                items.len(),
                |i: int|
                    if 0 <= i < items.len() {
                        walk_rewrite(dir, items[i], root)
                    } else {
                        JsonModel::Null
                    },
            ),
        ),
        JsonModel::Obj(fields) => JsonModel::Obj(
            Seq::new(
                fields.len(),
                |i: int|
                    if 0 <= i < fields.len() {
                        (
                            fields[i].0,
                            if fields[i].0 == uri_key() && fields[i].1 is Str {
                                match spec_rewrite_uri(dir, fields[i].1->Str_0, root) {
                                    Some(s) => JsonModel::Str(s),
                                    None => fields[i].1,
                                }
                            } else {
                                walk_rewrite(dir, fields[i].1, root)
                            },
                        )
                    } else {
                        (Seq::empty(), JsonModel::Null)
                    },
            ),
        ),
        other => other,
    }
}

/// The members of a message the remapper looks inside.
pub open spec fn msg_walk_key(k: Seq<char>) -> bool {
    k == "params"@ || k == "result"@
}

/// Every `uri` inside `params` and `result` remaps without escaping.
pub open spec fn spec_remap_message_ok(dir: RemapDirection, m: JsonModel, root: Seq<char>) -> bool {
    match m {
        JsonModel::Obj(fields) => forall|i: int|
            0 <= i < fields.len() ==> (msg_walk_key((#[trigger] fields[i]).0) ==> walk_ok(
                dir,
                fields[i].1,
                root,
            )),
        _ => true,
    }
}

/// The message with `params` and `result` subtrees remapped.
pub open spec fn spec_remap_message(dir: RemapDirection, m: JsonModel, root: Seq<char>) -> JsonModel {
    match m {
        JsonModel::Obj(fields) => JsonModel::Obj(
            Seq::new(
                fields.len(),
                |i: int|
                    if 0 <= i < fields.len() {
                        (
                            fields[i].0,
                            if msg_walk_key(fields[i].0) {
                                walk_rewrite(dir, fields[i].1, root)
                            } else {
                                fields[i].1
                            },
                        )
                    } else {
                        (Seq::empty(), JsonModel::Null)
                    },
            ),
        ),
        other => other,
    }
}

/// Rewrites every `uri` string field in a subtree.
pub fn rewrite_value(dir: RemapDirection, j: &Json, root: &[char]) -> (r: Result<Json, RemapError>)
    ensures
        match r {
            Ok(out) => walk_ok(dir, j@, root@) && out@ == walk_rewrite(dir, j@, root@),
            Err(_) => !walk_ok(dir, j@, root@),
        },
    decreases j,
{
    match j {
        Json::Null => Ok(Json::Null),
        Json::Bool(b) => Ok(Json::Bool(*b)),
        Json::Num(n) => Ok(Json::Num(clone_chars(n))),
        Json::Str(s) => Ok(Json::Str(clone_chars(s))),
        Json::Arr(items) => {
            let ghost m = json_model(*j)->Arr_0;
            let mut out: Vec<Json> = Vec::new();
            let mut i: usize = 0;
            #[verifier::loop_isolation(false)]
            while i < items.len()
                invariant
                    i <= items.len(),
                    m.len() == items.len(),
                    forall|k: int| 0 <= k < items.len() ==> m[k] == json_model(items[k]),
                    out.len() == i,
                    forall|k: int|
                        0 <= k < i ==> json_model(#[trigger] out[k]) == walk_rewrite(
                            dir,
                            m[k],
                            root@,
                        ),
                    forall|k: int| 0 <= k < i ==> walk_ok(dir, #[trigger] m[k], root@),
                decreases items.len() - i,
            {
                match rewrite_value(dir, &items[i], root) {
                    Ok(v) => {
                        out.push(v);
                    },
                    Err(e) => {
                        proof {
                            assert(!walk_ok(dir, m[i as int], root@));
                        }
                        return Err(e);
                    },
                }
                i += 1;
            }
            let r = Json::Arr(out);
            proof {
                assert(json_model(r)->Arr_0 =~= walk_rewrite(dir, json_model(*j), root@)->Arr_0);
            }
            Ok(r)
        },
        Json::Obj(fields) => {
            let ghost m = json_model(*j)->Obj_0;
            let uri = str_to_chars("uri");
            let mut out: Vec<(Vec<char>, Json)> = Vec::new();
            let mut i: usize = 0;
            #[verifier::loop_isolation(false)]
            while i < fields.len()
                invariant
                    i <= fields.len(),
                    uri@ == uri_key(),
                    m.len() == fields.len(),
                    forall|k: int|
                        0 <= k < fields.len() ==> m[k] == (fields[k].0@, json_model(fields[k].1)),
                    out.len() == i,
                    forall|k: int|
                        0 <= k < i ==> ((#[trigger] out[k]).0@, json_model(out[k].1))
                            == walk_rewrite(dir, json_model(*j), root@)->Obj_0[k],
                    forall|k: int|
                        0 <= k < i ==> (if (#[trigger] m[k]).0 == uri_key() && m[k].1 is Str {
                            spec_rewrite_uri(dir, m[k].1->Str_0, root@) is Some
                        } else {
                            walk_ok(dir, m[k].1, root@)
                        }),
                decreases fields.len() - i,
            {
                let key = clone_chars(&fields[i].0);
                let is_uri_str = chars_eq(key.as_slice(), uri.as_slice()) && matches!(
                    &fields[i].1,
                    Json::Str(_)
                );
                if is_uri_str {
                    let s = match &fields[i].1 {
                        Json::Str(s) => s,
                        _ => {
                            proof {
                                assert(false);
                            }
                            unreached()
                        },
                    };
                    let rewritten = match dir {
                        RemapDirection::ToFile => {
                            match remap_uri_to_file(s.as_slice(), root) {
                                Ok(o) => o,
                                Err(e) => {
                                    proof {
                                        assert(m[i as int].0 == uri_key());
                                        assert(m[i as int].1 is Str);
                                        assert(spec_rewrite_uri(
                                            dir,
                                            m[i as int].1->Str_0,
                                            root@,
                                        ) is None);
                                    }
                                    return Err(e);
                                },
                            }
                        },
                        RemapDirection::ToSource => remap_uri_to_source(s.as_slice(), root),
                    };
                    out.push((key, Json::Str(rewritten)));
                } else {
                    match rewrite_value(dir, &fields[i].1, root) {
                        Ok(v) => {
                            out.push((key, v));
                        },
                        Err(e) => {
                            proof {
                                assert(!walk_ok(dir, m[i as int].1, root@));
                            }
                            return Err(e);
                        },
                    }
                }
                i += 1;
            }
            let r = Json::Obj(out);
            proof {
                assert(json_model(r)->Obj_0 =~= walk_rewrite(dir, json_model(*j), root@)->Obj_0);
            }
            Ok(r)
        },
    }
}

/// Remaps every `uri` inside a message's `params` and `result`; other
/// members pass through untouched.
pub fn remap_message(dir: RemapDirection, msg: Json, root: &[char]) -> (r: Result<
    Json,
    RemapError,
>)
    ensures
        match r {
            Ok(out) => spec_remap_message_ok(dir, msg@, root@) && out@ == spec_remap_message(
                dir,
                msg@,
                root@,
            ),
            Err(_) => !spec_remap_message_ok(dir, msg@, root@),
        },
{
    let ghost orig = json_model(msg);
    match msg {
        Json::Obj(mut fields) => {
            let ghost m = orig->Obj_0;
            let params = str_to_chars("params");
            let result_key = str_to_chars("result");
            let mut out: Vec<(Vec<char>, Json)> = Vec::new();
            let mut i: usize = 0;
            proof {
                assert(m.len() == fields.len());
            }
            #[verifier::loop_isolation(false)]
            while fields.len() > 0
                invariant
                    orig == JsonModel::Obj(m),
                    m.len() <= usize::MAX,
                    params@ == "params"@,
                    result_key@ == "result"@,
                    i + fields.len() == m.len(),
                    out.len() == i,
                    forall|k: int|
                        0 <= k < fields.len() ==> m[i + k] == ((#[trigger] fields[k]).0@,
                        json_model(fields[k].1)),
                    forall|k: int|
                        0 <= k < i ==> ((#[trigger] out[k]).0@, json_model(out[k].1))
                            == spec_remap_message(dir, orig, root@)->Obj_0[k],
                    forall|k: int|
                        0 <= k < i ==> (msg_walk_key((#[trigger] m[k]).0) ==> walk_ok(
                            dir,
                            m[k].1,
                            root@,
                        )),
                decreases fields.len(),
            {
                let (key, value) = fields.remove(0);
                let walked = chars_eq(key.as_slice(), params.as_slice()) || chars_eq(
                    key.as_slice(),
                    result_key.as_slice(),
                );
                if walked {
                    match rewrite_value(dir, &value, root) {
                        Ok(v) => {
                            out.push((key, v));
                        },
                        Err(e) => {
                            proof {
                                assert(msg_walk_key(m[i as int].0));
                                assert(!walk_ok(dir, m[i as int].1, root@));
                            }
                            return Err(e);
                        },
                    }
                } else {
                    out.push((key, value));
                }
                proof {
                    assert(forall|k: int|
                        0 <= k < fields.len() ==> m[i + 1 + k] == ((#[trigger] fields[k]).0@,
                        json_model(fields[k].1)));
                }
                i += 1;
            }
            let r = Json::Obj(out);
            proof {
                assert(json_model(r)->Obj_0 =~= spec_remap_message(dir, orig, root@)->Obj_0);
            }
            Ok(r)
        },
        other => {
            proof {
                assert(json_model(other) == orig);
            }
            Ok(other)
        },
    }
}


/// Remapping toward the client never fails: folding `file://` back to
/// `source://` is total.
pub proof fn lemma_walk_ok_to_source(m: JsonModel, root: Seq<char>)
    ensures
        walk_ok(RemapDirection::ToSource, m, root),
    decreases m,
{
    match m {
        JsonModel::Arr(items) => {
            assert forall|i: int| 0 <= i < items.len() implies walk_ok(
                RemapDirection::ToSource,
                #[trigger] items[i],
                root,
            ) by {
                lemma_walk_ok_to_source(items[i], root);
            }
        },
        JsonModel::Obj(fields) => {
            assert forall|i: int| 0 <= i < fields.len() implies (if (#[trigger] fields[i]).0
                == uri_key() && fields[i].1 is Str {
                spec_rewrite_uri(RemapDirection::ToSource, fields[i].1->Str_0, root) is Some
            } else {
                walk_ok(RemapDirection::ToSource, fields[i].1, root)
            }) by {
                lemma_walk_ok_to_source(fields[i].1, root);
            }
        },
        _ => {},
    }
}

/// A whole message always remaps toward the client.
pub proof fn lemma_to_source_total(m: JsonModel, root: Seq<char>)
    ensures
        spec_remap_message_ok(RemapDirection::ToSource, m, root),
{
    match m {
        JsonModel::Obj(fields) => {
            assert forall|i: int| 0 <= i < fields.len() implies (msg_walk_key(
                (#[trigger] fields[i]).0,
            ) ==> walk_ok(RemapDirection::ToSource, fields[i].1, root)) by {
                lemma_walk_ok_to_source(fields[i].1, root);
            }
        },
        _ => {},
    }
}


} // verus!
