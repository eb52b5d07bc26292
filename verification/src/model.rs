use vstd::prelude::*;

verus! {

/// The meaning of one template part: literal html, the place where the
/// children of a component go, or a named fragment with parts of its own.
pub enum Piece {
    Text(Seq<char>),
    Slot,
    Fragment(Seq<char>, Seq<Piece>),
}

/// The meaning of a [`Markup`]: the html that it renders to, and the
/// template behind it when it holds slots or fragments.
pub struct MarkupModel {
    pub html: Seq<char>,
    pub template: Option<Seq<Piece>>,
}

/// The html of a sequence of pieces, with every slot left empty.
pub open spec fn render_pieces(ps: Seq<Piece>) -> Seq<char>
    decreases ps,
{
    if ps.len() == 0 {
        Seq::empty()
    } else {
        render_pieces(ps.drop_last()) + render_piece(ps.last())
    }
}

pub open spec fn render_piece(p: Piece) -> Seq<char>
    decreases p,
{
    match p {
        Piece::Text(h) => h,
        Piece::Slot => Seq::empty(),
        Piece::Fragment(_, body) => render_pieces(body),
    }
}

/// The html of a sequence of pieces with `children` at every slot.
pub open spec fn fill(ps: Seq<Piece>, children: Seq<char>) -> Seq<char>
    decreases ps,
{
    if ps.len() == 0 {
        Seq::empty()
    } else {
        fill(ps.drop_last(), children) + fill_piece(ps.last(), children)
    }
}

pub open spec fn fill_piece(p: Piece, children: Seq<char>) -> Seq<char>
    decreases p,
{
    match p {
        Piece::Text(h) => h,
        Piece::Slot => children,
        Piece::Fragment(_, body) => fill(body, children),
    }
}

/// Whether some slot occurs in the pieces, at any depth.
pub open spec fn has_slot(ps: Seq<Piece>) -> bool
    decreases ps,
{
    ps.len() > 0 && (has_slot(ps.drop_last()) || piece_has_slot(ps.last()))
}

pub open spec fn piece_has_slot(p: Piece) -> bool
    decreases p,
{
    match p {
        Piece::Text(_) => false,
        Piece::Slot => true,
        Piece::Fragment(_, body) => has_slot(body),
    }
}

/// Appends a piece, dropping empty html and joining adjacent html.
pub open spec fn push_piece(acc: Seq<Piece>, p: Piece) -> Seq<Piece> {
    match p {
        Piece::Text(h) => if h.len() == 0 {
            acc
        } else if acc.len() > 0 && acc.last() is Text {
            acc.drop_last().push(Piece::Text(acc.last()->Text_0 + h))
        } else {
            acc.push(p)
        },
        _ => acc.push(p),
    }
}

/// Appends pieces one by one with [`push_piece`].
pub open spec fn push_all(acc: Seq<Piece>, ps: Seq<Piece>) -> Seq<Piece>
    decreases ps.len(),
{
    if ps.len() == 0 {
        acc
    } else {
        push_piece(push_all(acc, ps.drop_last()), ps.last())
    }
}

/// The normal form of a template: no empty html, no two html pieces side by
/// side, at every depth.
pub open spec fn normalize(ps: Seq<Piece>) -> Seq<Piece>
    decreases ps,
{
    if ps.len() == 0 {
        Seq::empty()
    } else {
        push_piece(normalize(ps.drop_last()), normalize_piece(ps.last()))
    }
}

pub open spec fn normalize_piece(p: Piece) -> Piece
    decreases p,
{
    match p {
        Piece::Fragment(name, body) => Piece::Fragment(name, normalize(body)),
        _ => p,
    }
}

/// Whether the pieces hold a slot or a fragment at the top level.
pub open spec fn has_template(ps: Seq<Piece>) -> bool {
    exists|i: int| 0 <= i < ps.len() && !(#[trigger] ps[i] is Text)
}

/// The markup that a sequence of parts makes.
pub open spec fn from_pieces(ps: Seq<Piece>) -> MarkupModel {
    MarkupModel {
        html: render_pieces(ps),
        template: if has_template(ps) {
            Some(normalize(ps))
        } else {
            None
        },
    }
}

/// The pieces that a markup contributes where it is inserted.
pub open spec fn pieces_of(m: MarkupModel) -> Seq<Piece> {
    match m.template {
        Some(t) => t,
        None => seq![Piece::Text(m.html)],
    }
}

/// A template with `children` put in place of every slot.
pub open spec fn substitute(acc: Seq<Piece>, ps: Seq<Piece>, children: Seq<Piece>) -> Seq<Piece>
    decreases ps,
{
    if ps.len() == 0 {
        acc
    } else {
        substitute_piece(substitute(acc, ps.drop_last(), children), ps.last(), children)
    }
}

pub open spec fn substitute_piece(acc: Seq<Piece>, p: Piece, children: Seq<Piece>) -> Seq<Piece>
    decreases p,
{
    match p {
        Piece::Text(_) => push_piece(acc, p),
        Piece::Slot => push_all(acc, children),
        Piece::Fragment(name, body) => push_piece(
            acc,
            Piece::Fragment(name, substitute(Seq::empty(), body, children)),
        ),
    }
}

/// The body of the first fragment called `name`, searched depth first.
pub open spec fn find_fragment(ps: Seq<Piece>, name: Seq<char>) -> Option<Seq<Piece>>
    decreases ps,
{
    if ps.len() == 0 {
        None
    } else {
        match find_fragment(ps.drop_last(), name) {
            Some(body) => Some(body),
            None => find_in_piece(ps.last(), name),
        }
    }
}

pub open spec fn find_in_piece(p: Piece, name: Seq<char>) -> Option<Seq<Piece>>
    decreases p,
{
    match p {
        Piece::Fragment(n, body) => if n == name {
            Some(body)
        } else {
            find_fragment(body, name)
        },
        _ => None,
    }
}

/// `has_slot` holds just when some piece at the top level has a slot.
pub proof fn lemma_has_slot_exists(ps: Seq<Piece>)
    ensures
        has_slot(ps) <==> exists|i: int| 0 <= i < ps.len() && piece_has_slot(#[trigger] ps[i]),
    decreases ps.len(),
{
    if ps.len() > 0 {
        lemma_has_slot_exists(ps.drop_last());
        if has_slot(ps.drop_last()) {
            let i = choose|i: int| 0 <= i < ps.drop_last().len() && piece_has_slot(#[trigger] ps.drop_last()[i]);
            assert(ps[i] == ps.drop_last()[i]);
        }
        if exists|i: int| 0 <= i < ps.len() && piece_has_slot(#[trigger] ps[i]) {
            let i = choose|i: int| 0 <= i < ps.len() && piece_has_slot(#[trigger] ps[i]);
            if i < ps.len() - 1 {
                assert(ps.drop_last()[i] == ps[i]);
            }
        }
    }
}

/// Once a prefix holds the fragment, the whole sequence gives that one.
pub proof fn lemma_find_fragment_prefix(ps: Seq<Piece>, name: Seq<char>, k: int)
    requires
        0 <= k <= ps.len(),
        find_fragment(ps.take(k), name) is Some,
    ensures
        find_fragment(ps, name) == find_fragment(ps.take(k), name),
    decreases ps.len(),
{
    if k < ps.len() {
        assert(ps.drop_last().take(k) == ps.take(k));
        lemma_find_fragment_prefix(ps.drop_last(), name, k);
    } else {
        assert(ps.take(k) == ps);
    }
}

/// The pieces that a markup stands for in normal form: its template, or
/// its html as one piece when it has no template and is not empty.
pub open spec fn into_pieces(m: MarkupModel) -> Seq<Piece> {
    match m.template {
        Some(t) => t,
        None => if m.html.len() == 0 {
            Seq::empty()
        } else {
            seq![Piece::Text(m.html)]
        },
    }
}

pub proof fn lemma_has_template_push(ps: Seq<Piece>, p: Piece)
    ensures
        has_template(ps.push(p)) == (has_template(ps) || !(p is Text)),
{
    if has_template(ps) {
        let i = choose|i: int| 0 <= i < ps.len() && !(#[trigger] ps[i] is Text);
        assert(ps.push(p)[i] == ps[i]);
    }
    if !(p is Text) {
        assert(ps.push(p)[ps.len() as int] == p);
    }
    if has_template(ps.push(p)) {
        let i = choose|i: int| 0 <= i < ps.push(p).len() && !(#[trigger] ps.push(p)[i] is Text);
        if i < ps.len() {
            assert(ps[i] == ps.push(p)[i]);
        }
    }
}

pub proof fn lemma_render_push_piece(acc: Seq<Piece>, p: Piece)
    ensures
        render_pieces(push_piece(acc, p)) == render_pieces(acc) + render_piece(p),
{
    match p {
        Piece::Text(h) => {
            if h.len() == 0 {
                assert(render_pieces(acc) + h == render_pieces(acc));
            } else if acc.len() > 0 && acc.last() is Text {
                // The last html piece grows by `h`: the html before it is
                // unchanged on both sides.
                let l = acc.last()->Text_0;
                let r = acc.drop_last().push(Piece::Text(l + h));
                assert(acc.last() == Piece::Text(l));
                assert(r.last() == Piece::Text(l + h));
                assert(r.drop_last() == acc.drop_last());
                assert(render_pieces(acc) == render_pieces(acc.drop_last()) + render_piece(acc.last()));
                assert(render_pieces(r) == render_pieces(r.drop_last()) + render_piece(r.last()));
            } else {
                assert(acc.push(p).drop_last() == acc);
            }
        },
        _ => {
            assert(acc.push(p).drop_last() == acc);
        },
    }
}

pub proof fn lemma_render_push_all(acc: Seq<Piece>, ps: Seq<Piece>)
    ensures
        render_pieces(push_all(acc, ps)) == render_pieces(acc) + render_pieces(ps),
    decreases ps.len(),
{
    if ps.len() == 0 {
        assert(render_pieces(acc) + Seq::<char>::empty() == render_pieces(acc));
    } else {
        lemma_render_push_all(acc, ps.drop_last());
        lemma_render_push_piece(push_all(acc, ps.drop_last()), ps.last());
        assert(render_pieces(acc) + render_pieces(ps.drop_last()) + render_piece(ps.last()) == render_pieces(acc) + (render_pieces(ps.drop_last()) + render_piece(ps.last())));
    }
}

/// Normalizing a template does not change its html.
pub proof fn lemma_render_normalize(ps: Seq<Piece>)
    ensures
        render_pieces(normalize(ps)) == render_pieces(ps),
    decreases ps,
{
    if ps.len() > 0 {
        lemma_render_normalize(ps.drop_last());
        lemma_render_normalize_piece(ps.last());
        lemma_render_push_piece(normalize(ps.drop_last()), normalize_piece(ps.last()));
    }
}

pub proof fn lemma_render_normalize_piece(p: Piece)
    ensures
        render_piece(normalize_piece(p)) == render_piece(p),
    decreases p,
{
    if let Piece::Fragment(_, body) = p {
        lemma_render_normalize(body);
    }
}

/// A template of html alone normalizes to one piece of html, or to nothing.
pub proof fn lemma_normalize_text_only(ps: Seq<Piece>)
    requires
        !has_template(ps),
    ensures
        normalize(ps) == (if render_pieces(ps).len() == 0 {
            Seq::<Piece>::empty()
        } else {
            seq![Piece::Text(render_pieces(ps))]
        }),
    decreases ps.len(),
{
    if ps.len() > 0 {
        let init = ps.drop_last();
        assert(!has_template(init)) by {
            if has_template(init) {
                let i = choose|i: int| 0 <= i < init.len() && !(#[trigger] init[i] is Text);
                assert(ps[i] == init[i]);
            }
        }
        lemma_normalize_text_only(init);
        // The last piece is html too, and joins the html before it.
        assert(ps[ps.len() - 1] is Text);
        let h = ps.last()->Text_0;
        assert(ps.last() == Piece::Text(h));
        assert(render_pieces(ps) == render_pieces(init) + render_piece(ps.last()));
        assert(normalize(ps) == push_piece(normalize(init), normalize_piece(ps.last())));
        if render_pieces(init).len() == 0 {
            assert(render_pieces(ps) == h);
        } else {
            let acc = seq![Piece::Text(render_pieces(init))];
            assert(acc.drop_last() == Seq::<Piece>::empty());
            if h.len() > 0 {
                assert(Seq::<Piece>::empty().push(Piece::Text(render_pieces(init) + h)) == seq![Piece::Text(render_pieces(init) + h)]);
            } else {
                assert(render_pieces(init) + h == render_pieces(init));
            }
        }
    }
}

/// The unfolding of the recursive definitions on a sequence of one piece.
pub proof fn lemma_single(p: Piece)
    ensures
        render_pieces(seq![p]) == render_piece(p),
        fill(seq![p], Seq::empty()) == fill_piece(p, Seq::empty()),
        normalize(seq![p]) == push_piece(Seq::empty(), normalize_piece(p)),
        has_slot(seq![p]) == piece_has_slot(p),
        has_template(seq![p]) == !(p is Text),
{
    let s = seq![p];
    assert(s.drop_last() == Seq::<Piece>::empty());
    assert(s.last() == p);
    assert(render_pieces(s) == render_pieces(s.drop_last()) + render_piece(s.last()));
    assert(render_pieces(Seq::<Piece>::empty()) + render_piece(p) == render_piece(p));
    assert(fill(s, Seq::empty()) == fill(s.drop_last(), Seq::empty()) + fill_piece(s.last(), Seq::empty()));
    assert(fill(Seq::<Piece>::empty(), Seq::empty()) + fill_piece(p, Seq::empty()) == fill_piece(p, Seq::empty()));
    assert(normalize(s) == push_piece(normalize(s.drop_last()), normalize_piece(s.last())));
    assert(has_slot(s) == (has_slot(s.drop_last()) || piece_has_slot(s.last())));
    if !(p is Text) {
        assert(!(s[0] is Text));
    }
}

pub proof fn lemma_render_substitute(acc: Seq<Piece>, ps: Seq<Piece>, children: Seq<Piece>)
    ensures
        render_pieces(substitute(acc, ps, children)) == render_pieces(acc) + fill(ps, render_pieces(children)),
    decreases ps,
{
    if ps.len() == 0 {
        assert(render_pieces(acc) + Seq::<char>::empty() == render_pieces(acc));
    } else {
        lemma_render_substitute(acc, ps.drop_last(), children);
        lemma_render_substitute_piece(substitute(acc, ps.drop_last(), children), ps.last(), children);
        assert(render_pieces(acc) + fill(ps.drop_last(), render_pieces(children)) + fill_piece(ps.last(), render_pieces(children))
            == render_pieces(acc) + fill(ps, render_pieces(children)));
    }
}

pub proof fn lemma_render_substitute_piece(acc: Seq<Piece>, p: Piece, children: Seq<Piece>)
    ensures
        render_pieces(substitute_piece(acc, p, children)) == render_pieces(acc) + fill_piece(p, render_pieces(children)),
    decreases p,
{
    match p {
        Piece::Text(_) => {
            lemma_render_push_piece(acc, p);
        },
        Piece::Slot => {
            lemma_render_push_all(acc, children);
        },
        Piece::Fragment(name, body) => {
            let inner = substitute(Seq::empty(), body, children);
            lemma_render_substitute(Seq::empty(), body, children);
            assert(render_pieces(Seq::<Piece>::empty()) + fill(body, render_pieces(children)) == fill(body, render_pieces(children)));
            lemma_render_push_piece(acc, Piece::Fragment(name, inner));
        },
    }
}

/// The html of a well-formed markup is the html of the pieces it stands for.
pub proof fn lemma_render_pieces_of(m: MarkupModel)
    requires
        m.wf(),
    ensures
        render_pieces(pieces_of(m)) == m.html,
{
    if m.template is None {
        lemma_single(Piece::Text(m.html));
    }
}

/// The html of a markup rendered with children is its template's html with
/// the children's html in every slot.
pub proof fn law_with_children_html(m: MarkupModel, children: MarkupModel)
    requires
        m.wf(),
        children.wf(),
        m.accepts_children(),
    ensures
        m.with_children(children).wf(),
        m.with_children(children).html == fill(m.template.unwrap(), children.html),
{
    let t = m.template.unwrap();
    lemma_render_substitute(Seq::empty(), t, pieces_of(children));
    lemma_render_pieces_of(children);
    assert(render_pieces(Seq::<Piece>::empty()) + fill(t, children.html) == fill(t, children.html));
    lemma_from_pieces_wf(substitute(Seq::empty(), t, pieces_of(children)));
}

/// The markup made from any pieces is well formed.
pub proof fn lemma_from_pieces_wf(ps: Seq<Piece>)
    ensures
        from_pieces(ps).wf(),
{
    lemma_render_normalize(ps);
}

/// The html of a fragment found in some pieces occurs within their html.
pub proof fn lemma_find_fragment_within(ps: Seq<Piece>, name: Seq<char>)
    requires
        find_fragment(ps, name) is Some,
    ensures
        is_infix(render_pieces(find_fragment(ps, name).unwrap()), render_pieces(ps)),
    decreases ps,
{
    let init = ps.drop_last();
    if find_fragment(init, name) is Some {
        lemma_find_fragment_within(init, name);
        lemma_infix_extend(render_pieces(find_fragment(init, name).unwrap()), render_pieces(init), Seq::empty(), render_piece(ps.last()));
        assert(Seq::<char>::empty() + render_pieces(init) + render_piece(ps.last()) == render_pieces(ps));
    } else {
        lemma_find_in_piece_within(ps.last(), name);
        lemma_infix_extend(render_pieces(find_in_piece(ps.last(), name).unwrap()), render_piece(ps.last()), render_pieces(init), Seq::empty());
        assert(render_pieces(init) + render_piece(ps.last()) + Seq::<char>::empty() == render_pieces(ps));
    }
}

pub proof fn lemma_find_in_piece_within(p: Piece, name: Seq<char>)
    requires
        find_in_piece(p, name) is Some,
    ensures
        is_infix(render_pieces(find_in_piece(p, name).unwrap()), render_piece(p)),
    decreases p,
{
    if let Piece::Fragment(n, body) = p {
        if n == name {
            let r = render_pieces(body);
            assert(r.subrange(0int, 0int + r.len()) == r);
        } else {
            lemma_find_fragment_within(body, name);
        }
    }
}

/// `part` occurs within `whole` as a contiguous run.
pub open spec fn is_infix(part: Seq<char>, whole: Seq<char>) -> bool {
    exists|i: int| 0 <= i && i + part.len() <= whole.len() && #[trigger] whole.subrange(i, i + part.len()) == part
}

pub proof fn lemma_infix_extend(part: Seq<char>, whole: Seq<char>, before: Seq<char>, after: Seq<char>)
    requires
        is_infix(part, whole),
    ensures
        is_infix(part, before + whole + after),
{
    let i = choose|i: int| 0 <= i && i + part.len() <= whole.len() && #[trigger] whole.subrange(i, i + part.len()) == part;
    let j = before.len() + i;
    assert((before + whole + after).subrange(j, j + part.len()) == part);
}

/// A fragment rendered on its own is a part of the page it was found in.
pub proof fn law_fragment_within_page(m: MarkupModel, name: Seq<char>)
    requires
        m.wf(),
        m.fragment(name) is Some,
    ensures
        is_infix(m.fragment(name).unwrap().html, m.html),
{
    lemma_find_fragment_within(m.template.unwrap(), name);
}

/// The markup of a fragment called `name` with a slot for its content.
pub open spec fn fragment_model(name: Seq<char>) -> MarkupModel {
    from_pieces(seq![Piece::Fragment(name, seq![Piece::Slot])])
}

/// The pieces of one fragment, before and after `substitute`.
proof fn lemma_substitute_single_fragment(name: Seq<char>, body: Seq<Piece>, children: Seq<Piece>)
    ensures
        substitute(Seq::empty(), seq![Piece::Fragment(name, body)], children)
            == seq![Piece::Fragment(name, substitute(Seq::empty(), body, children))],
{
    let s = seq![Piece::Fragment(name, body)];
    assert(s.drop_last() == Seq::<Piece>::empty());
    assert(s.last() == Piece::Fragment(name, body));
    assert(substitute(Seq::empty(), s, children) == substitute_piece(substitute(Seq::empty(), s.drop_last(), children), s.last(), children));
    assert(Seq::<Piece>::empty().push(Piece::Fragment(name, substitute(Seq::empty(), body, children)))
        == seq![Piece::Fragment(name, substitute(Seq::empty(), body, children))]);
}

/// A fragment with content, rendered on its own, gives back just that
/// content.
pub proof fn law_fragment_renders_content(name: Seq<char>, children: MarkupModel)
    requires
        children.wf(),
    ensures
        fragment_model(name).accepts_children(),
        fragment_model(name).with_children(children).fragment(name) is Some,
        fragment_model(name).with_children(children).fragment(name).unwrap().html == children.html,
{
    let slot = seq![Piece::Slot];
    let frag = Piece::Fragment(name, slot);
    lemma_single(Piece::Slot);
    assert(Seq::<Piece>::empty().push(Piece::Slot) == slot);
    lemma_single(frag);
    assert(normalize_piece(frag) == frag);
    assert(Seq::<Piece>::empty().push(frag) == seq![frag]);
    let t = seq![frag];
    assert(fragment_model(name).template == Some(t));
    assert(has_slot(t));
    let pc = pieces_of(children);
    let sub = substitute(Seq::empty(), slot, pc);
    assert(slot.drop_last() == Seq::<Piece>::empty());
    assert(sub == substitute_piece(substitute(Seq::empty(), slot.drop_last(), pc), Piece::Slot, pc));
    assert(sub == push_all(Seq::empty(), pc));
    lemma_substitute_single_fragment(name, slot, pc);
    let f2 = Piece::Fragment(name, sub);
    let page = fragment_model(name).with_children(children);
    assert(fragment_model(name).template.unwrap_or(Seq::empty()) == t);
    assert(page == from_pieces(seq![f2]));
    lemma_single(f2);
    assert(Seq::<Piece>::empty().push(normalize_piece(f2)) == seq![normalize_piece(f2)]);
    let t2 = seq![Piece::Fragment(name, normalize(sub))];
    assert(page.template == Some(t2));
    assert(t2.drop_last() == Seq::<Piece>::empty());
    assert(find_fragment(Seq::<Piece>::empty(), name) is None);
    assert(find_fragment(t2, name) == match find_fragment(t2.drop_last(), name) {
        Some(b) => Some(b),
        None => find_in_piece(t2.last(), name),
    });
    assert(find_fragment(t2, name) == find_in_piece(t2.last(), name));
    assert(page.fragment(name) == Some(from_pieces(normalize(sub))));
    lemma_render_normalize(sub);
    lemma_render_push_all(Seq::empty(), pc);
    lemma_render_pieces_of(children);
    assert(render_pieces(Seq::<Piece>::empty()) + render_pieces(pc) == render_pieces(pc));
}

/// The markup of a lone slot.
pub open spec fn slot_model() -> MarkupModel {
    from_pieces(seq![Piece::Slot])
}

/// A lone slot renders nothing and takes children; given children, it
/// renders just them, and takes children just when they do.
pub proof fn law_slot_renders_children(children: MarkupModel)
    requires
        children.wf(),
    ensures
        slot_model().html == Seq::<char>::empty(),
        slot_model().accepts_children(),
        slot_model().with_children(children).html == children.html,
        slot_model().with_children(children).accepts_children() == children.accepts_children(),
{
    let t = seq![Piece::Slot];
    lemma_single(Piece::Slot);
    assert(Seq::<Piece>::empty().push(Piece::Slot) == t);
    assert(t.drop_last() == Seq::<Piece>::empty());
    assert(has_slot(t));
    assert(slot_model().template == Some(t));
    law_with_children_html(slot_model(), children);
    law_with_children_keeps_slots(slot_model(), children);
    assert(fill(t, children.html) == fill(t.drop_last(), children.html) + fill_piece(Piece::Slot, children.html));
    assert(fill(Seq::<Piece>::empty(), children.html) + children.html == children.html);
}

/// A fragment with a slot renders nothing and takes children; given
/// children, it renders just them, and so does the fragment on its own.
pub proof fn law_fragment_slot_renders_children(name: Seq<char>, children: MarkupModel)
    requires
        children.wf(),
    ensures
        fragment_model(name).html == Seq::<char>::empty(),
        fragment_model(name).accepts_children(),
        fragment_model(name).fragment(name) is Some,
        fragment_model(name).with_children(children).html == children.html,
        fragment_model(name).with_children(children).fragment(name) is Some,
        fragment_model(name).with_children(children).fragment(name).unwrap().html == children.html,
{
    law_fragment_renders_content(name, children);
    let slot = seq![Piece::Slot];
    let frag = Piece::Fragment(name, slot);
    let t = seq![frag];
    lemma_single(Piece::Slot);
    lemma_single(frag);
    assert(Seq::<Piece>::empty().push(Piece::Slot) == slot);
    assert(normalize_piece(frag) == frag);
    assert(Seq::<Piece>::empty().push(frag) == t);
    assert(fragment_model(name).template == Some(t));
    assert(t.drop_last() == Seq::<Piece>::empty());
    assert(slot.drop_last() == Seq::<Piece>::empty());
    assert(find_fragment(Seq::<Piece>::empty(), name) is None);
    assert(t.last() == frag);
    assert(find_in_piece(frag, name) == Some(slot));
    assert(find_fragment(t, name) == match find_fragment(t.drop_last(), name) {
        Some(b) => Some(b),
        None => find_in_piece(t.last(), name),
    });
    assert(find_fragment(t, name) == Some(slot));
    assert(render_pieces(t) == render_pieces(t.drop_last()) + render_piece(frag));
    assert(render_pieces(slot) == render_pieces(slot.drop_last()) + render_piece(Piece::Slot));
    law_with_children_html(fragment_model(name), children);
    assert(fill(t, children.html) == fill(t.drop_last(), children.html) + fill_piece(frag, children.html));
    assert(fill(slot, children.html) == fill(slot.drop_last(), children.html) + fill_piece(Piece::Slot, children.html));
    assert(fill(Seq::<Piece>::empty(), children.html) + children.html == children.html);
}

/// What pushing markup into a builder does to its html: the builder's
/// content renders to its old html followed by the markup's.
pub proof fn law_push_appends_html(
    pieces: Seq<Piece>,
    text: Seq<char>,
    new_pieces: Seq<Piece>,
    new_text: Seq<char>,
    m: MarkupModel,
)
    requires
        m.wf(),
        match m.template {
            None => new_text == text + m.html && new_pieces == pieces,
            Some(t) => new_text == Seq::<char>::empty() && new_pieces == push_all(push_piece(pieces, Piece::Text(text)), t),
        },
    ensures
        render_pieces(push_piece(new_pieces, Piece::Text(new_text)))
            == render_pieces(push_piece(pieces, Piece::Text(text))) + m.html,
{
    lemma_render_push_piece(new_pieces, Piece::Text(new_text));
    lemma_render_push_piece(pieces, Piece::Text(text));
    match m.template {
        None => {
            assert(render_pieces(pieces) + (text + m.html) == render_pieces(pieces) + text + m.html);
        },
        Some(t) => {
            lemma_render_push_all(push_piece(pieces, Piece::Text(text)), t);
            assert(render_pieces(new_pieces) + Seq::<char>::empty() == render_pieces(new_pieces));
        },
    }
}

pub proof fn lemma_fill_push_piece(acc: Seq<Piece>, p: Piece, x: Seq<char>)
    ensures
        fill(push_piece(acc, p), x) == fill(acc, x) + fill_piece(p, x),
{
    match p {
        Piece::Text(h) => {
            if h.len() == 0 {
                assert(fill(acc, x) + h == fill(acc, x));
            } else if acc.len() > 0 && acc.last() is Text {
                let l = acc.last()->Text_0;
                assert(acc.last() == Piece::Text(l));
                let r = acc.drop_last().push(Piece::Text(l + h));
                assert(r.drop_last() == acc.drop_last());
                assert(r.last() == Piece::Text(l + h));
                assert(fill(acc, x) == fill(acc.drop_last(), x) + fill_piece(acc.last(), x));
                assert(fill(r, x) == fill(r.drop_last(), x) + fill_piece(r.last(), x));
                assert(fill(acc.drop_last(), x) + (l + h) == fill(acc.drop_last(), x) + l + h);
            } else {
                assert(acc.push(p).drop_last() == acc);
            }
        },
        _ => {
            assert(acc.push(p).drop_last() == acc);
        },
    }
}

pub proof fn lemma_fill_push_all(acc: Seq<Piece>, ps: Seq<Piece>, x: Seq<char>)
    ensures
        fill(push_all(acc, ps), x) == fill(acc, x) + fill(ps, x),
    decreases ps.len(),
{
    if ps.len() == 0 {
        assert(fill(acc, x) + Seq::<char>::empty() == fill(acc, x));
    } else {
        lemma_fill_push_all(acc, ps.drop_last(), x);
        lemma_fill_push_piece(push_all(acc, ps.drop_last()), ps.last(), x);
        assert(fill(acc, x) + fill(ps.drop_last(), x) + fill_piece(ps.last(), x)
            == fill(acc, x) + (fill(ps.drop_last(), x) + fill_piece(ps.last(), x)));
    }
}

/// Normalizing a template does not change what it renders to with
/// children.
pub proof fn lemma_fill_normalize(ps: Seq<Piece>, x: Seq<char>)
    ensures
        fill(normalize(ps), x) == fill(ps, x),
    decreases ps,
{
    if ps.len() > 0 {
        lemma_fill_normalize(ps.drop_last(), x);
        lemma_fill_normalize_piece(ps.last(), x);
        lemma_fill_push_piece(normalize(ps.drop_last()), normalize_piece(ps.last()), x);
    }
}

pub proof fn lemma_fill_normalize_piece(p: Piece, x: Seq<char>)
    ensures
        fill_piece(normalize_piece(p), x) == fill_piece(p, x),
    decreases p,
{
    if let Piece::Fragment(_, body) = p {
        lemma_fill_normalize(body, x);
    }
}

/// Filling a template whose slots were replaced by `children` fills the
/// children in their place.
pub proof fn lemma_fill_substitute(acc: Seq<Piece>, ps: Seq<Piece>, children: Seq<Piece>, x: Seq<char>)
    ensures
        fill(substitute(acc, ps, children), x) == fill(acc, x) + fill(ps, fill(children, x)),
    decreases ps,
{
    if ps.len() == 0 {
        assert(fill(acc, x) + Seq::<char>::empty() == fill(acc, x));
    } else {
        lemma_fill_substitute(acc, ps.drop_last(), children, x);
        lemma_fill_substitute_piece(substitute(acc, ps.drop_last(), children), ps.last(), children, x);
        let y = fill(children, x);
        assert(fill(acc, x) + fill(ps.drop_last(), y) + fill_piece(ps.last(), y)
            == fill(acc, x) + (fill(ps.drop_last(), y) + fill_piece(ps.last(), y)));
    }
}

pub proof fn lemma_fill_substitute_piece(acc: Seq<Piece>, p: Piece, children: Seq<Piece>, x: Seq<char>)
    ensures
        fill(substitute_piece(acc, p, children), x) == fill(acc, x) + fill_piece(p, fill(children, x)),
    decreases p,
{
    match p {
        Piece::Text(_) => {
            lemma_fill_push_piece(acc, p, x);
        },
        Piece::Slot => {
            lemma_fill_push_all(acc, children, x);
        },
        Piece::Fragment(name, body) => {
            let inner = substitute(Seq::empty(), body, children);
            lemma_fill_substitute(Seq::empty(), body, children, x);
            assert(fill(Seq::<Piece>::empty(), x) + fill(body, fill(children, x)) == fill(body, fill(children, x)));
            lemma_fill_push_piece(acc, Piece::Fragment(name, inner), x);
        },
    }
}

pub proof fn lemma_has_slot_push_piece(acc: Seq<Piece>, p: Piece)
    ensures
        has_slot(push_piece(acc, p)) == (has_slot(acc) || piece_has_slot(p)),
{
    match p {
        Piece::Text(h) => {
            if h.len() > 0 && acc.len() > 0 && acc.last() is Text {
                let l = acc.last()->Text_0;
                let r = acc.drop_last().push(Piece::Text(l + h));
                assert(acc.last() == Piece::Text(l));
                assert(r.last() == Piece::Text(l + h));
                assert(r.drop_last() == acc.drop_last());
                assert(has_slot(acc) == (has_slot(acc.drop_last()) || piece_has_slot(acc.last())));
                assert(has_slot(r) == (has_slot(r.drop_last()) || piece_has_slot(r.last())));
            } else if h.len() > 0 {
                assert(acc.push(p).drop_last() == acc);
            }
        },
        _ => {
            assert(acc.push(p).drop_last() == acc);
        },
    }
}

pub proof fn lemma_has_slot_push_all(acc: Seq<Piece>, ps: Seq<Piece>)
    ensures
        has_slot(push_all(acc, ps)) == (has_slot(acc) || has_slot(ps)),
    decreases ps.len(),
{
    if ps.len() > 0 {
        lemma_has_slot_push_all(acc, ps.drop_last());
        lemma_has_slot_push_piece(push_all(acc, ps.drop_last()), ps.last());
    }
}

pub proof fn lemma_has_slot_normalize(ps: Seq<Piece>)
    ensures
        has_slot(normalize(ps)) == has_slot(ps),
    decreases ps,
{
    if ps.len() > 0 {
        lemma_has_slot_normalize(ps.drop_last());
        lemma_has_slot_normalize_piece(ps.last());
        lemma_has_slot_push_piece(normalize(ps.drop_last()), normalize_piece(ps.last()));
    }
}

pub proof fn lemma_has_slot_normalize_piece(p: Piece)
    ensures
        piece_has_slot(normalize_piece(p)) == piece_has_slot(p),
    decreases p,
{
    if let Piece::Fragment(_, body) = p {
        lemma_has_slot_normalize(body);
    }
}

/// A template with its slots replaced by `children` has a slot just when it
/// had one before, or had a slot to fill and the children bring one.
pub proof fn lemma_has_slot_substitute(acc: Seq<Piece>, ps: Seq<Piece>, children: Seq<Piece>)
    ensures
        has_slot(substitute(acc, ps, children)) == (has_slot(acc) || (has_slot(ps) && has_slot(children))),
    decreases ps,
{
    if ps.len() > 0 {
        lemma_has_slot_substitute(acc, ps.drop_last(), children);
        lemma_has_slot_substitute_piece(substitute(acc, ps.drop_last(), children), ps.last(), children);
    }
}

pub proof fn lemma_has_slot_substitute_piece(acc: Seq<Piece>, p: Piece, children: Seq<Piece>)
    ensures
        has_slot(substitute_piece(acc, p, children))
            == (has_slot(acc) || (piece_has_slot(p) && has_slot(children))),
    decreases p,
{
    match p {
        Piece::Text(_) => {
            lemma_has_slot_push_piece(acc, p);
        },
        Piece::Slot => {
            lemma_has_slot_push_all(acc, children);
        },
        Piece::Fragment(name, body) => {
            lemma_has_slot_substitute(Seq::empty(), body, children);
            assert(!has_slot(Seq::<Piece>::empty()));
            lemma_has_slot_push_piece(acc, Piece::Fragment(name, substitute(Seq::empty(), body, children)));
        },
    }
}

/// A slot at any depth sits inside a piece that is not html.
pub proof fn lemma_has_slot_has_template(ps: Seq<Piece>)
    requires
        has_slot(ps),
    ensures
        has_template(ps),
{
    lemma_has_slot_exists(ps);
    let i = choose|i: int| 0 <= i < ps.len() && piece_has_slot(#[trigger] ps[i]);
    assert(!(ps[i] is Text));
}

/// Rendering children into a markup that takes them leaves a slot just
/// when the children bring one.
pub proof fn law_with_children_keeps_slots(m: MarkupModel, children: MarkupModel)
    requires
        m.wf(),
        children.wf(),
        m.accepts_children(),
    ensures
        m.with_children(children).accepts_children() == children.accepts_children(),
{
    let t = m.template.unwrap();
    let pc = pieces_of(children);
    let s = substitute(Seq::empty(), t, pc);
    lemma_has_slot_substitute(Seq::empty(), t, pc);
    assert(!has_slot(Seq::<Piece>::empty()));
    if children.template is None {
        lemma_single(Piece::Text(children.html));
    }
    assert(has_slot(pc) == children.accepts_children());
    assert(m.template.unwrap_or(Seq::empty()) == t);
    lemma_has_slot_normalize(s);
    if has_slot(s) {
        lemma_has_slot_has_template(s);
    }
}

/// Layouts nest: rendering children into a layout, and then more children
/// into the result, renders the same html as rendering the layout with the
/// inner layout already holding those children.
pub proof fn law_nested_children(m: MarkupModel, inner: MarkupModel, children: MarkupModel)
    requires
        m.wf(),
        inner.wf(),
        children.wf(),
        m.accepts_children(),
        inner.accepts_children(),
    ensures
        m.with_children(inner).accepts_children(),
        m.with_children(inner).with_children(children).html
            == m.with_children(inner.with_children(children)).html,
{
    let t = m.template.unwrap();
    let ti = inner.template.unwrap();
    let s = substitute(Seq::empty(), t, ti);
    law_with_children_keeps_slots(m, inner);
    law_with_children_html(m, inner);
    let outer = m.with_children(inner);
    law_with_children_html(outer, children);
    law_with_children_html(inner, children);
    law_with_children_html(m, inner.with_children(children));
    lemma_has_slot_substitute(Seq::empty(), t, ti);
    assert(!has_slot(Seq::<Piece>::empty()));
    lemma_has_slot_has_template(s);
    assert(outer.template == Some(normalize(s)));
    lemma_fill_normalize(s, children.html);
    lemma_fill_substitute(Seq::empty(), t, ti, children.html);
    assert(fill(Seq::<Piece>::empty(), children.html) + fill(t, fill(ti, children.html))
        == fill(t, fill(ti, children.html)));
}

pub proof fn lemma_find_fragment_push_piece(acc: Seq<Piece>, p: Piece, name: Seq<char>)
    ensures
        find_fragment(push_piece(acc, p), name) == match find_fragment(acc, name) {
            Some(body) => Some(body),
            None => find_in_piece(p, name),
        },
{
    match p {
        Piece::Text(h) => {
            if h.len() > 0 && acc.len() > 0 && acc.last() is Text {
                let l = acc.last()->Text_0;
                let r = acc.drop_last().push(Piece::Text(l + h));
                assert(acc.last() == Piece::Text(l));
                assert(r.last() == Piece::Text(l + h));
                assert(r.drop_last() == acc.drop_last());
                assert(r.last() == Piece::Text(l + h));
                assert(find_in_piece(acc.last(), name) is None);
                assert(find_in_piece(r.last(), name) is None);
                assert(find_fragment(acc, name) == match find_fragment(acc.drop_last(), name) {
                    Some(b) => Some(b),
                    None => find_in_piece(acc.last(), name),
                });
                assert(find_fragment(r, name) == match find_fragment(r.drop_last(), name) {
                    Some(b) => Some(b),
                    None => find_in_piece(r.last(), name),
                });
            } else if h.len() > 0 {
                assert(acc.push(p).drop_last() == acc);
            }
        },
        _ => {
            assert(acc.push(p).drop_last() == acc);
        },
    }
}

pub proof fn lemma_find_fragment_push_all(acc: Seq<Piece>, ps: Seq<Piece>, name: Seq<char>)
    ensures
        find_fragment(push_all(acc, ps), name) == match find_fragment(acc, name) {
            Some(body) => Some(body),
            None => find_fragment(ps, name),
        },
    decreases ps.len(),
{
    if ps.len() > 0 {
        lemma_find_fragment_push_all(acc, ps.drop_last(), name);
        lemma_find_fragment_push_piece(push_all(acc, ps.drop_last()), ps.last(), name);
    }
}

/// Normalizing a template finds the same fragments, normalized.
pub proof fn lemma_find_fragment_normalize(ps: Seq<Piece>, name: Seq<char>)
    ensures
        find_fragment(normalize(ps), name) == match find_fragment(ps, name) {
            Some(body) => Some(normalize(body)),
            None => None,
        },
    decreases ps,
{
    if ps.len() > 0 {
        lemma_find_fragment_normalize(ps.drop_last(), name);
        lemma_find_in_piece_normalize(ps.last(), name);
        lemma_find_fragment_push_piece(normalize(ps.drop_last()), normalize_piece(ps.last()), name);
    }
}

pub proof fn lemma_find_in_piece_normalize(p: Piece, name: Seq<char>)
    ensures
        find_in_piece(normalize_piece(p), name) == match find_in_piece(p, name) {
            Some(body) => Some(normalize(body)),
            None => None,
        },
    decreases p,
{
    if let Piece::Fragment(_, body) = p {
        lemma_find_fragment_normalize(body, name);
    }
}

/// Where the children hold no fragment of that name, filling slots finds
/// the same fragments, with the children in their slots.
pub proof fn lemma_find_fragment_substitute(acc: Seq<Piece>, ps: Seq<Piece>, children: Seq<Piece>, name: Seq<char>)
    requires
        find_fragment(children, name) is None,
    ensures
        find_fragment(substitute(acc, ps, children), name) == match find_fragment(acc, name) {
            Some(body) => Some(body),
            None => match find_fragment(ps, name) {
                Some(body) => Some(substitute(Seq::empty(), body, children)),
                None => None,
            },
        },
    decreases ps,
{
    if ps.len() > 0 {
        lemma_find_fragment_substitute(acc, ps.drop_last(), children, name);
        lemma_find_in_piece_substitute(substitute(acc, ps.drop_last(), children), ps.last(), children, name);
    }
}

pub proof fn lemma_find_in_piece_substitute(acc: Seq<Piece>, p: Piece, children: Seq<Piece>, name: Seq<char>)
    requires
        find_fragment(children, name) is None,
    ensures
        find_fragment(substitute_piece(acc, p, children), name) == match find_fragment(acc, name) {
            Some(body) => Some(body),
            None => match find_in_piece(p, name) {
                Some(body) => Some(substitute(Seq::empty(), body, children)),
                None => None,
            },
        },
    decreases p,
{
    match p {
        Piece::Text(_) => {
            lemma_find_fragment_push_piece(acc, p, name);
        },
        Piece::Slot => {
            lemma_find_fragment_push_all(acc, children, name);
        },
        Piece::Fragment(n, body) => {
            let inner = substitute(Seq::empty(), body, children);
            lemma_find_fragment_push_piece(acc, Piece::Fragment(n, inner), name);
            if n != name {
                lemma_find_fragment_substitute(Seq::empty(), body, children, name);
                assert(find_fragment(Seq::<Piece>::empty(), name) is None);
            }
        },
    }
}

/// A fragment of a page rendered with children is that fragment with the
/// children in its slots, where the children hold no fragment of that name.
pub proof fn law_fragment_with_children(m: MarkupModel, children: MarkupModel, name: Seq<char>)
    requires
        m.wf(),
        children.wf(),
        m.accepts_children(),
        m.fragment(name) is Some,
        children.fragment(name) is None,
    ensures
        m.with_children(children).fragment(name) is Some,
        m.with_children(children).fragment(name).unwrap().html
            == fill(find_fragment(m.template.unwrap(), name).unwrap(), children.html),
{
    let t = m.template.unwrap();
    let pc = pieces_of(children);
    let s = substitute(Seq::empty(), t, pc);
    let body = find_fragment(t, name).unwrap();
    if children.template is None {
        lemma_single(Piece::Text(children.html));
        let single = seq![Piece::Text(children.html)];
        assert(single.drop_last() == Seq::<Piece>::empty());
        assert(single.last() == Piece::Text(children.html));
        assert(find_fragment(Seq::<Piece>::empty(), name) is None);
        assert(find_fragment(single, name) == match find_fragment(single.drop_last(), name) {
            Some(b) => Some(b),
            None => find_in_piece(single.last(), name),
        });
    } else {
        assert(find_fragment(children.template.unwrap(), name) is None);
    }
    assert(find_fragment(pc, name) is None);
    lemma_find_fragment_substitute(Seq::empty(), t, pc, name);
    assert(find_fragment(Seq::<Piece>::empty(), name) is None);
    let sb = substitute(Seq::empty(), body, pc);
    assert(find_fragment(s, name) == Some(sb));
    assert(has_template(s)) by {
        if !has_template(s) {
            lemma_find_fragment_text_only(s, name);
        }
    }
    assert(m.template.unwrap_or(Seq::empty()) == t);
    lemma_find_fragment_normalize(s, name);
    assert(m.with_children(children).fragment(name) == Some(from_pieces(normalize(sb))));
    lemma_render_normalize(sb);
    lemma_render_substitute(Seq::empty(), body, pc);
    lemma_render_pieces_of(children);
    assert(render_pieces(Seq::<Piece>::empty()) + fill(body, children.html) == fill(body, children.html));
}

/// Filling slots loses no fragment: where the pieces, or what came before
/// them, hold a fragment of some name, so does the result.
pub proof fn lemma_substitute_keeps_fragment(acc: Seq<Piece>, ps: Seq<Piece>, children: Seq<Piece>, name: Seq<char>)
    requires
        find_fragment(acc, name) is Some || find_fragment(ps, name) is Some,
    ensures
        find_fragment(substitute(acc, ps, children), name) is Some,
    decreases ps,
{
    if ps.len() > 0 {
        let init = ps.drop_last();
        if find_fragment(acc, name) is Some || find_fragment(init, name) is Some {
            lemma_substitute_keeps_fragment(acc, init, children, name);
        }
        lemma_substitute_piece_keeps_fragment(substitute(acc, init, children), ps.last(), children, name);
    }
}

pub proof fn lemma_substitute_piece_keeps_fragment(acc: Seq<Piece>, p: Piece, children: Seq<Piece>, name: Seq<char>)
    requires
        find_fragment(acc, name) is Some || find_in_piece(p, name) is Some,
    ensures
        find_fragment(substitute_piece(acc, p, children), name) is Some,
    decreases p,
{
    match p {
        Piece::Text(_) => {
            lemma_find_fragment_push_piece(acc, p, name);
        },
        Piece::Slot => {
            lemma_find_fragment_push_all(acc, children, name);
        },
        Piece::Fragment(n, body) => {
            let inner = substitute(Seq::empty(), body, children);
            lemma_find_fragment_push_piece(acc, Piece::Fragment(n, inner), name);
            if find_fragment(acc, name) is None && n != name {
                lemma_substitute_keeps_fragment(Seq::empty(), body, children, name);
            }
        },
    }
}

/// Every fragment name of a markup can still be rendered after children
/// are rendered into it, whatever the children are.
pub proof fn law_fragment_names_survive(m: MarkupModel, children: MarkupModel, name: Seq<char>)
    requires
        m.fragment(name) is Some,
    ensures
        m.with_children(children).fragment(name) is Some,
{
    let t = m.template.unwrap();
    let s = substitute(Seq::empty(), t, pieces_of(children));
    assert(m.template.unwrap_or(Seq::empty()) == t);
    lemma_substitute_keeps_fragment(Seq::empty(), t, pieces_of(children), name);
    assert(has_template(s)) by {
        if !has_template(s) {
            lemma_find_fragment_text_only(s, name);
        }
    }
    lemma_find_fragment_normalize(s, name);
}

/// Whether a template is in normal form: no empty html, and no two html
/// pieces side by side, at every depth.
pub open spec fn is_normal(ps: Seq<Piece>) -> bool
    decreases ps,
{
    ps.len() == 0 || (is_normal(ps.drop_last()) && piece_is_normal(ps.last()) && !(ps.last() is Text
        && ps.drop_last().len() > 0 && ps.drop_last().last() is Text))
}

pub open spec fn piece_is_normal(p: Piece) -> bool
    decreases p,
{
    match p {
        Piece::Text(h) => h.len() > 0,
        Piece::Slot => true,
        Piece::Fragment(_, body) => is_normal(body),
    }
}

/// The slots and fragments of a template, in order, without its html.
pub open spec fn skeleton(ps: Seq<Piece>) -> Seq<Piece>
    decreases ps.len(),
{
    if ps.len() == 0 {
        Seq::empty()
    } else if ps.last() is Text {
        skeleton(ps.drop_last())
    } else {
        skeleton(ps.drop_last()).push(ps.last())
    }
}

proof fn lemma_push_piece_normal(acc: Seq<Piece>, p: Piece)
    requires
        is_normal(acc),
        p is Text || piece_is_normal(p),
    ensures
        is_normal(push_piece(acc, p)),
        skeleton(push_piece(acc, p)) == if p is Text { skeleton(acc) } else { skeleton(acc).push(p) },
{
    match p {
        Piece::Text(h) => {
            if h.len() > 0 && acc.len() > 0 && acc.last() is Text {
                let r = acc.drop_last().push(Piece::Text(acc.last()->Text_0 + h));
                assert(r.drop_last() == acc.drop_last());
                assert(r.last() == Piece::Text(acc.last()->Text_0 + h));
                assert(is_normal(acc.drop_last()));
                assert(piece_is_normal(r.last()));
            } else if h.len() > 0 {
                let r = acc.push(p);
                assert(r.drop_last() == acc);
                assert(r.last() == p);
                assert(piece_is_normal(p));
            }
        },
        _ => {
            assert(acc.push(p).drop_last() == acc);
        },
    }
}

/// Normalizing gives a template in normal form, with the same slots and
/// fragments in the same order, each fragment's body normalized too.
pub proof fn law_normalize_is_normal(ps: Seq<Piece>)
    ensures
        is_normal(normalize(ps)),
        skeleton(normalize(ps)) == skeleton(ps).map_values(|p: Piece| normalize_piece(p)),
    decreases ps,
{
    if ps.len() > 0 {
        let init = ps.drop_last();
        let last = ps.last();
        law_normalize_is_normal(init);
        lemma_normalize_piece_normal(last);
        lemma_push_piece_normal(normalize(init), normalize_piece(last));
        if !(last is Text) {
            assert(skeleton(init).push(last).map_values(|p: Piece| normalize_piece(p))
                == skeleton(init).map_values(|p: Piece| normalize_piece(p)).push(normalize_piece(last)));
        }
    } else {
        assert(skeleton(ps).map_values(|p: Piece| normalize_piece(p)) == Seq::<Piece>::empty());
    }
}

proof fn lemma_normalize_piece_normal(p: Piece)
    ensures
        normalize_piece(p) is Text || piece_is_normal(normalize_piece(p)),
        normalize_piece(p) is Text == p is Text,
    decreases p,
{
    if let Piece::Fragment(_, body) = p {
        law_normalize_is_normal(body);
    }
}

/// The markup made from any pieces has a template in normal form, holding
/// the slots and fragments of the pieces in their order, and has one just
/// when the pieces hold a slot or a fragment.
pub proof fn law_from_pieces_normal(ps: Seq<Piece>)
    ensures
        from_pieces(ps).template is Some <==> skeleton(ps).len() > 0,
        from_pieces(ps).template matches Some(t) ==> is_normal(t)
            && skeleton(t) == skeleton(ps).map_values(|p: Piece| normalize_piece(p)),
{
    law_normalize_is_normal(ps);
    lemma_skeleton_empty(ps);
}

proof fn lemma_skeleton_empty(ps: Seq<Piece>)
    ensures
        skeleton(ps).len() > 0 <==> has_template(ps),
    decreases ps.len(),
{
    if ps.len() > 0 {
        let init = ps.drop_last();
        lemma_skeleton_empty(init);
        if has_template(init) {
            let i = choose|i: int| 0 <= i < init.len() && !(#[trigger] init[i] is Text);
            assert(ps[i] == init[i]);
        }
        if has_template(ps) && !(ps.last() is Text) {
        } else if has_template(ps) {
            let i = choose|i: int| 0 <= i < ps.len() && !(#[trigger] ps[i] is Text);
            assert(i != ps.len() - 1);
            assert(init[i] == ps[i]);
        }
        if !(ps.last() is Text) {
            assert(ps[ps.len() - 1] == ps.last());
        }
    }
}

/// The markup made from pieces takes children just when the pieces hold a
/// slot, and has a fragment of a name just when the pieces do, rendering to
/// that fragment's html.
pub proof fn law_from_pieces_slots_and_fragments(ps: Seq<Piece>, name: Seq<char>)
    ensures
        from_pieces(ps).accepts_children() == has_slot(ps),
        (from_pieces(ps).fragment(name) is Some) == (find_fragment(ps, name) is Some),
        find_fragment(ps, name) matches Some(body) ==> from_pieces(ps).fragment(name).unwrap().html
            == render_pieces(body),
{
    if has_template(ps) {
        lemma_has_slot_normalize(ps);
        lemma_find_fragment_normalize(ps, name);
        if find_fragment(ps, name) is Some {
            lemma_render_normalize(find_fragment(ps, name).unwrap());
        }
    } else {
        if has_slot(ps) {
            lemma_has_slot_has_template(ps);
        }
        lemma_find_fragment_text_only(ps, name);
    }
}

/// Appending a piece keeps the slots and fragments, and adds the piece's.
pub proof fn lemma_has_template_push_piece(acc: Seq<Piece>, p: Piece)
    ensures
        has_template(push_piece(acc, p)) == (has_template(acc) || !(p is Text)),
{
    lemma_has_template_push(acc, p);
    if let Piece::Text(h) = p {
        if h.len() > 0 && acc.len() > 0 && acc.last() is Text {
            let init = acc.drop_last();
            let l = acc.last()->Text_0;
            assert(acc == init.push(acc.last()));
            lemma_has_template_push(init, acc.last());
            lemma_has_template_push(init, Piece::Text(l + h));
        }
    }
}

/// Appending pieces keeps the slots and fragments, and adds theirs.
pub proof fn lemma_has_template_push_all(acc: Seq<Piece>, ps: Seq<Piece>)
    ensures
        has_template(push_all(acc, ps)) == (has_template(acc) || has_template(ps)),
    decreases ps.len(),
{
    if ps.len() > 0 {
        lemma_has_template_push_all(acc, ps.drop_last());
        lemma_has_template_push_piece(push_all(acc, ps.drop_last()), ps.last());
        assert(ps == ps.drop_last().push(ps.last()));
        lemma_has_template_push(ps.drop_last(), ps.last());
    } else {
        assert(!has_template(ps));
    }
}

/// Normalizing keeps a template's slots and fragments.
pub proof fn lemma_normalize_keeps_template(ps: Seq<Piece>)
    ensures
        has_template(normalize(ps)) == has_template(ps),
{
    law_normalize_is_normal(ps);
    lemma_skeleton_empty(ps);
    lemma_skeleton_empty(normalize(ps));
}

/// Html alone holds no fragment.
pub proof fn lemma_find_fragment_text_only(ps: Seq<Piece>, name: Seq<char>)
    requires
        !has_template(ps),
    ensures
        find_fragment(ps, name) is None,
    decreases ps.len(),
{
    if ps.len() > 0 {
        let init = ps.drop_last();
        assert(!has_template(init)) by {
            if has_template(init) {
                let i = choose|i: int| 0 <= i < init.len() && !(#[trigger] init[i] is Text);
                assert(ps[i] == init[i]);
            }
        }
        lemma_find_fragment_text_only(init, name);
        assert(ps[ps.len() - 1] is Text);
        assert(ps.last() == ps[ps.len() - 1]);
        assert(find_in_piece(ps.last(), name) is None);
    }
}

impl MarkupModel {
    /// The html agrees with the template, where there is one.
    pub open spec fn wf(self) -> bool {
        match self.template {
            Some(t) => self.html == render_pieces(t),
            None => true,
        }
    }

    pub open spec fn accepts_children(self) -> bool {
        match self.template {
            Some(t) => has_slot(t),
            None => false,
        }
    }

    /// This markup with `children` rendered into its slots.
    pub open spec fn with_children(self, children: MarkupModel) -> MarkupModel {
        from_pieces(substitute(Seq::empty(), self.template.unwrap_or(Seq::empty()), pieces_of(children)))
    }

    /// The fragment called `name`, as a markup of its own.
    pub open spec fn fragment(self, name: Seq<char>) -> Option<MarkupModel> {
        match self.template {
            Some(t) => match find_fragment(t, name) {
                Some(body) => Some(from_pieces(body)),
                None => None,
            },
            None => None,
        }
    }
}

} // verus!
