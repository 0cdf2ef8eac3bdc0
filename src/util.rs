use vstd::prelude::*;

verus! {

/// The path `root` with the component `part` pushed onto it, as a Unix path
/// buffer does: an absolute component replaces the whole path, and a separator
/// is put between the two unless the path is empty or already ends in one.
pub open spec fn pushed(root: Seq<char>, part: Seq<char>) -> Seq<char> {
    if part.len() > 0 && part[0] == '/' {
        part
    } else if root.len() == 0 || root.last() == '/' {
        root + part
    } else {
        root + seq!['/'] + part
    }
}

/// The path `root` with each of `parts` pushed onto it in turn.
pub open spec fn joined(root: Seq<char>, parts: Seq<Seq<char>>) -> Seq<char>
    decreases parts.len(),
{
    if parts.len() == 0 {
        root
    } else {
        pushed(joined(root, parts.drop_last()), parts.last())
    }
}

/// The texts of a list of string slices.
pub open spec fn texts(parts: Seq<&str>) -> Seq<Seq<char>> {
    parts.map_values(|p: &str| p@)
}

fn push_component(buf: &mut String, part: &str)
    ensures
        final(buf)@ == pushed(old(buf)@, part@),
{
    proof {
        reveal_strlit("/");
    }
    let plen = part.unicode_len();
    if plen > 0 && part.get_char(0) == '/' {
        *buf = part.to_string();
        return;
    }
    let blen = buf.as_str().unicode_len();
    if blen > 0 && buf.as_str().get_char(blen - 1) != '/' {
        buf.append("/");
    }
    buf.append(part);
}

/// Joins path components onto `root`, as pushing each onto a path buffer
/// would.
pub fn join(root: &str, parts: &[&str]) -> (r: String)
    ensures
        r@ == joined(root@, texts(parts@)),
{
    let mut buf = root.to_string();
    let mut i: usize = 0;
    while i < parts.len()
        invariant
            i <= parts@.len(),
            buf@ == joined(root@, texts(parts@.subrange(0, i as int))),
        decreases parts@.len() - i,
    {
        proof {
            let sub = parts@.subrange(0, i as int + 1);
            assert(sub.drop_last() =~= parts@.subrange(0, i as int));
            assert(texts(sub).drop_last() =~= texts(sub.drop_last()));
        }
        push_component(&mut buf, parts[i]);
        i += 1;
    }
    assert(parts@.subrange(0, parts@.len() as int) =~= parts@);
    buf
}

} // verus!
