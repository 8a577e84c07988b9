use vstd::prelude::*;

verus! {

/// The expansion of one byte of payload text under HTML escaping:
/// `<`, `>`, `"` and `&` become their entities, every other byte is kept.
pub open spec fn escape_byte(b: u8) -> Seq<u8> {
    if b == 60 {  // '<'
        seq![38u8, 108u8, 116u8, 59u8]  // "&lt;"
    } else if b == 62 {  // '>'
        seq![38u8, 103u8, 116u8, 59u8]  // "&gt;"
    } else if b == 34 {  // '"'
        seq![38u8, 113u8, 117u8, 111u8, 116u8, 59u8]  // "&quot;"
    } else if b == 38 {  // '&'
        seq![38u8, 97u8, 109u8, 112u8, 59u8]  // "&amp;"
    } else {
        seq![b]
    }
}

/// HTML escaping of a whole payload: one left-to-right pass over the
/// original text, each byte replaced by its expansion independently.
pub open spec fn escape_bytes(s: Seq<u8>) -> Seq<u8>
    decreases s.len(),
{
    if s.len() == 0 {
        Seq::empty()
    } else {
        escape_byte(s[0]) + escape_bytes(s.drop_first())
    }
}

proof fn lemma_escape_bytes_snoc(s: Seq<u8>)
    requires
        s.len() > 0,
    ensures
        escape_bytes(s) == escape_bytes(s.drop_last()) + escape_byte(s.last()),
    decreases s.len(),
{
    if s.len() == 1 {
        assert(s.drop_last() =~= Seq::<u8>::empty());
        assert(escape_bytes(s) =~= escape_byte(s[0]) + escape_bytes(s.drop_first()));
        assert(s.drop_first() =~= Seq::<u8>::empty());
        assert(escape_bytes(s) =~= escape_bytes(s.drop_last()) + escape_byte(s.last()));
    } else {
        let t = s.drop_first();
        lemma_escape_bytes_snoc(t);
        assert(t.drop_last() =~= s.drop_last().drop_first());
        assert(t.last() == s.last());
        assert(escape_bytes(s) == escape_byte(s[0]) + (escape_bytes(t.drop_last())
            + escape_byte(t.last())));
        assert(s.drop_last().len() > 0);
        assert(escape_bytes(s.drop_last()) == escape_byte(s.drop_last()[0]) + escape_bytes(
            s.drop_last().drop_first(),
        ));
        assert(s.drop_last()[0] == s[0]);
        assert(escape_bytes(s) =~= escape_bytes(s.drop_last()) + escape_byte(s.last()));
    }
}

/// Standard HTML-entity unescaping, restricted to the four entities that
/// the escaping step writes: one left-to-right pass that turns each
/// entity back into its character and keeps every other byte.
pub open spec fn unescape_bytes(s: Seq<u8>) -> Seq<u8>
    decreases s.len(),
{
    if s.len() == 0 {
        Seq::empty()
    } else if s.len() >= 4 && s.take(4) == seq![38u8, 108u8, 116u8, 59u8] {
        seq![60u8] + unescape_bytes(s.skip(4))
    } else if s.len() >= 4 && s.take(4) == seq![38u8, 103u8, 116u8, 59u8] {
        seq![62u8] + unescape_bytes(s.skip(4))
    } else if s.len() >= 6 && s.take(6) == seq![38u8, 113u8, 117u8, 111u8, 116u8, 59u8] {
        seq![34u8] + unescape_bytes(s.skip(6))
    } else if s.len() >= 5 && s.take(5) == seq![38u8, 97u8, 109u8, 112u8, 59u8] {
        seq![38u8] + unescape_bytes(s.skip(5))
    } else {
        seq![s[0]] + unescape_bytes(s.drop_first())
    }
}

/// Escaping is safe for the script region: no raw `<` or `>` byte is left
/// anywhere in the escaped text.
pub proof fn lemma_escape_no_raw_markup(s: Seq<u8>)
    ensures
        forall|i: int|
            0 <= i < escape_bytes(s).len() ==> #[trigger] escape_bytes(s)[i] != 60
                && escape_bytes(s)[i] != 62,
    decreases s.len(),
{
    if s.len() == 0 {
    } else {
        lemma_escape_no_raw_markup(s.drop_first());
        let head = escape_byte(s[0]);
        let rest = escape_bytes(s.drop_first());
        assert(escape_bytes(s) == head + rest);
        assert forall|i: int|
            0 <= i < escape_bytes(s).len() implies #[trigger] escape_bytes(s)[i] != 60
            && escape_bytes(s)[i] != 62 by {
            if i < head.len() {
                assert(escape_bytes(s)[i] == head[i]);
            } else {
                assert(escape_bytes(s)[i] == rest[i - head.len()]);
            }
        }
    }
}

/// Escaping round-trips: standard entity unescaping of the escaped text
/// gives back the original payload exactly.
pub proof fn lemma_unescape_escape(s: Seq<u8>)
    ensures
        unescape_bytes(escape_bytes(s)) == s,
    decreases s.len(),
{
    if s.len() == 0 {
        assert(unescape_bytes(escape_bytes(s)) =~= s);
    } else {
        let h = s[0];
        let es = escape_bytes(s);
        let rest = escape_bytes(s.drop_first());
        lemma_unescape_escape(s.drop_first());
        assert(es == escape_byte(h) + rest);
        if h == 60 {
            assert(es.take(4) =~= seq![38u8, 108u8, 116u8, 59u8]);
            assert(es.skip(4) =~= rest);
            assert(unescape_bytes(es) =~= s);
        } else if h == 62 {
            assert(es[1] == 103);
            assert(es.len() >= 4 && es.take(4)[1] == 103);
            assert(es.take(4) =~= seq![38u8, 103u8, 116u8, 59u8]);
            assert(es.skip(4) =~= rest);
            assert(unescape_bytes(es) =~= s);
        } else if h == 34 {
            assert(es[1] == 113);
            assert(es.take(4)[1] == 113);
            assert(es.take(6) =~= seq![38u8, 113u8, 117u8, 111u8, 116u8, 59u8]);
            assert(es.skip(6) =~= rest);
            assert(unescape_bytes(es) =~= s);
        } else if h == 38 {
            assert(es[1] == 97);
            assert(es.take(4)[1] == 97);
            if es.len() >= 6 {
                assert(es.take(6)[1] == 97);
            }
            assert(es.take(5) =~= seq![38u8, 97u8, 109u8, 112u8, 59u8]);
            assert(es.skip(5) =~= rest);
            assert(unescape_bytes(es) =~= s);
        } else {
            assert(es[0] == h && h != 38);
            if es.len() >= 4 {
                assert(es.take(4)[0] == h);
            }
            if es.len() >= 6 {
                assert(es.take(6)[0] == h);
            }
            if es.len() >= 5 {
                assert(es.take(5)[0] == h);
            }
            assert(es.drop_first() =~= rest);
            assert(unescape_bytes(es) =~= s);
        }
    }
}

/// Escape a payload for embedding in the script fragment, replacing the
/// four markup bytes by entities in a single pass over the input.
pub fn escape_html_bytes(s: &[u8]) -> (r: Vec<u8>)
    ensures
        r@ == escape_bytes(s@),
{
    let mut out: Vec<u8> = Vec::new();
    let mut i: usize = 0;
    while i < s.len()
        invariant
            0 <= i <= s@.len(),
            out@ == escape_bytes(s@.take(i as int)),
        decreases s@.len() - i,
    {
        let b = s[i];
        if b == 60 {
            out.push(38);
            out.push(108);
            out.push(116);
            out.push(59);
        } else if b == 62 {
            out.push(38);
            out.push(103);
            out.push(116);
            out.push(59);
        } else if b == 34 {
            out.push(38);
            out.push(113);
            out.push(117);
            out.push(111);
            out.push(116);
            out.push(59);
        } else if b == 38 {
            out.push(38);
            out.push(97);
            out.push(109);
            out.push(112);
            out.push(59);
        } else {
            out.push(b);
        }
        proof {
            let p = s@.take(i + 1);
            lemma_escape_bytes_snoc(p);
            assert(p.drop_last() =~= s@.take(i as int));
            assert(p.last() == s@[i as int]);
            assert(out@ =~= escape_bytes(s@.take(i + 1)));
        }
        i = i + 1;
    }
    proof {
        assert(s@.take(s@.len() as int) =~= s@);
    }
    out
}

} // verus!
