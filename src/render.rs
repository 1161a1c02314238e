use vstd::prelude::*;

verus! {

pub const OPEN_BRACE: u8 = 123;

pub const CLOSE_BRACE: u8 = 125;

/// The placeholder `{name}` as bytes.
pub open spec fn placeholder() -> Seq<u8> {
    seq![123u8, 110u8, 97u8, 109u8, 101u8, 125u8]
}

/// `t` begins with the placeholder `{name}`.
pub open spec fn starts_with_placeholder(t: Seq<u8>) -> bool {
    t.len() >= 6 && t.subrange(0, 6) == placeholder()
}

/// A template rendered with `name`, read as a format string: `{{` stands for
/// `{`, `}}` for `}`, `{name}` for the name, and every other byte for itself.
pub open spec fn rendered(t: Seq<u8>, name: Seq<u8>) -> Seq<u8>
    decreases t.len(),
{
    if t.len() == 0 {
        Seq::empty()
    } else if t.len() >= 2 && t[0] == OPEN_BRACE && t[1] == OPEN_BRACE {
        seq![OPEN_BRACE] + rendered(t.skip(2), name)
    } else if t.len() >= 2 && t[0] == CLOSE_BRACE && t[1] == CLOSE_BRACE {
        seq![CLOSE_BRACE] + rendered(t.skip(2), name)
    } else if starts_with_placeholder(t) {
        name + rendered(t.skip(6), name)
    } else {
        seq![t[0]] + rendered(t.skip(1), name)
    }
}

/// `t` holds no brace, so no placeholder and no escape.
pub open spec fn is_plain(t: Seq<u8>) -> bool {
    forall|i: int| 0 <= i < t.len() ==> #[trigger] t[i] != OPEN_BRACE && t[i] != CLOSE_BRACE
}

fn placeholder_at(t: &[u8], i: usize) -> (r: bool)
    requires
        i <= t@.len(),
    ensures
        r == starts_with_placeholder(t@.skip(i as int)),
{
    if t.len() - i < 6 {
        return false;
    }
    let r = t[i] == 123u8 && t[i + 1] == 110u8 && t[i + 2] == 97u8 && t[i + 3] == 109u8 && t[i
        + 4] == 101u8 && t[i + 5] == 125u8;
    assert(r == (t@.skip(i as int).subrange(0, 6) =~= placeholder()));
    r
}

/// Renders a template: the name replaces each `{name}`, `{{` and `}}` become
/// single braces, and all other bytes are kept.
pub fn render(template: &[u8], name: &[u8]) -> (r: Vec<u8>)
    ensures
        r@ == rendered(template@, name@),
{
    let t = template;
    let n = t.len();
    let mut out: Vec<u8> = Vec::new();
    let mut i: usize = 0;
    assert(t@.skip(0) =~= t@);
    while i < n
        invariant
            n == t@.len(),
            i <= n,
            out@ + rendered(t@.skip(i as int), name@) == rendered(t@, name@),
        decreases n - i,
    {
        let ghost rest = t@.skip(i as int);
        if n - i >= 2 && t[i] == OPEN_BRACE && t[i + 1] == OPEN_BRACE {
            assert(rest.skip(2) =~= t@.skip(i + 2));
            out.push(OPEN_BRACE);
            i = i + 2;
        } else if n - i >= 2 && t[i] == CLOSE_BRACE && t[i + 1] == CLOSE_BRACE {
            assert(rest.skip(2) =~= t@.skip(i + 2));
            out.push(CLOSE_BRACE);
            i = i + 2;
        } else if placeholder_at(t, i) {
            assert(rest.skip(6) =~= t@.skip(i + 6));
            out.extend_from_slice(name);
            i = i + 6;
        } else {
            assert(rest.skip(1) =~= t@.skip(i + 1));
            out.push(t[i]);
            i = i + 1;
        }
        assert(out@ + rendered(t@.skip(i as int), name@) =~= rendered(t@, name@));
    }
    assert(out@ + rendered(t@.skip(n as int), name@) =~= out@);
    out
}

} // verus!

verus! {

/// Text before the first brace renders to itself: rendering `pre + rest`
/// keeps a brace-free `pre` and renders `rest` after it.
pub proof fn lemma_plain_prefix(pre: Seq<u8>, rest: Seq<u8>, name: Seq<u8>)
    requires
        is_plain(pre),
    ensures
        rendered(pre + rest, name) == pre + rendered(rest, name),
    decreases pre.len(),
{
    if pre.len() == 0 {
        assert(pre + rest =~= rest);
        assert(pre + rendered(rest, name) =~= rendered(rest, name));
    } else {
        let t = pre + rest;
        assert(t[0] == pre[0]);
        assert(!starts_with_placeholder(t)) by {
            if t.len() >= 6 {
                assert(t.subrange(0, 6)[0] == t[0]);
                assert(placeholder()[0] == OPEN_BRACE);
            }
        };
        assert(t.skip(1) =~= pre.skip(1) + rest);
        assert(is_plain(pre.skip(1)));
        lemma_plain_prefix(pre.skip(1), rest, name);
        assert(seq![pre[0]] + (pre.skip(1) + rendered(rest, name)) =~= pre + rendered(rest, name));
    }
}

/// A template without braces renders to itself, whatever the name.
pub proof fn lemma_plain_unchanged(t: Seq<u8>, name: Seq<u8>)
    requires
        is_plain(t),
    ensures
        rendered(t, name) == t,
{
    lemma_plain_prefix(t, Seq::empty(), name);
    assert(t + Seq::<u8>::empty() =~= t);
    assert(t + rendered(Seq::<u8>::empty(), name) =~= t);
}

/// A template with one `{name}` between brace-free text renders to that text
/// with the name in the placeholder's place, and nothing else changed.
pub proof fn lemma_single_placeholder(pre: Seq<u8>, post: Seq<u8>, name: Seq<u8>)
    requires
        is_plain(pre),
        is_plain(post),
    ensures
        rendered(pre + placeholder() + post, name) == pre + name + post,
{
    let tail = placeholder() + post;
    assert(pre + placeholder() + post =~= pre + tail);
    lemma_plain_prefix(pre, tail, name);
    assert(tail.subrange(0, 6) =~= placeholder());
    assert(tail[1] != CLOSE_BRACE);
    assert(tail.skip(6) =~= post);
    lemma_plain_unchanged(post, name);
    assert(pre + (name + post) =~= pre + name + post);
}

} // verus!
