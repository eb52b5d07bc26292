use vstd::prelude::*;
use crate::model::{Piece, MarkupModel, render_pieces, render_piece, has_slot, piece_has_slot, push_piece, push_all, normalize, normalize_piece, has_template, from_pieces, pieces_of, substitute, substitute_piece, find_fragment, find_in_piece, lemma_find_fragment_prefix, lemma_has_slot_exists, lemma_has_template_push, into_pieces, lemma_render_normalize, lemma_normalize_text_only, lemma_single, fill, is_infix, law_with_children_html, law_with_children_keeps_slots, law_fragment_names_survive, law_fragment_within_page, slot_model, fragment_model, law_slot_renders_children, law_fragment_slot_renders_children, lemma_normalize_keeps_template, is_normal, law_from_pieces_normal};
use vstd::string::StringExecFns;
use crate::html::str_eq;

verus! {

/// One part of a markup template.
#[derive(Debug, PartialEq, Eq, Hash, PartialOrd, Ord)]
pub(crate) enum MarkupPart {
    Html(String),
    Children,
    Fragment { name: String, parts: Vec<MarkupPart> },
}

pub(crate) open spec fn parts_model(ps: Seq<MarkupPart>) -> Seq<Piece>
    decreases ps,
{
    if ps.len() == 0 {
        Seq::empty()
    } else {
        parts_model(ps.drop_last()).push(part_model(ps.last()))
    }
}

pub(crate) open spec fn part_model(p: MarkupPart) -> Piece
    decreases p,
{
    match p {
        MarkupPart::Html(h) => Piece::Text(h@),
        MarkupPart::Children => Piece::Slot,
        MarkupPart::Fragment { name, parts } => Piece::Fragment(name@, parts_model(parts@)),
    }
}

pub(crate) proof fn lemma_parts_model_push(ps: Seq<MarkupPart>, p: MarkupPart)
    ensures
        parts_model(ps.push(p)) == parts_model(ps).push(part_model(p)),
{
    assert(ps.push(p).drop_last() == ps);
}

pub(crate) proof fn lemma_parts_model_len(ps: Seq<MarkupPart>)
    ensures
        parts_model(ps).len() == ps.len(),
    decreases ps.len(),
{
    if ps.len() > 0 {
        lemma_parts_model_len(ps.drop_last());
    }
}

pub(crate) proof fn lemma_parts_model_index(ps: Seq<MarkupPart>, i: int)
    requires
        0 <= i < ps.len(),
    ensures
        parts_model(ps).len() == ps.len(),
        parts_model(ps)[i] == part_model(ps[i]),
    decreases ps.len(),
{
    lemma_parts_model_len(ps);
    if i < ps.len() - 1 {
        lemma_parts_model_index(ps.drop_last(), i);
    }
}

pub(crate) proof fn lemma_parts_model_take(ps: Seq<MarkupPart>, i: int)
    requires
        0 <= i < ps.len(),
    ensures
        parts_model(ps.take(i + 1)) == parts_model(ps.take(i)).push(part_model(ps[i])),
{
    assert(ps.take(i + 1).drop_last() == ps.take(i));
}

impl MarkupPart {
    #[verifier::loop_isolation(false)]
    pub(crate) fn accepts_children(&self) -> (b: bool)
        ensures
            b == piece_has_slot(part_model(*self)),
        decreases self,
    {
        match self {
            MarkupPart::Html(_) => false,
            MarkupPart::Children => true,
            MarkupPart::Fragment { parts, .. } => {
                proof {
                    lemma_has_slot_exists(parts_model(parts@));
                    lemma_parts_model_len(parts@);
                }
                let mut i: usize = 0;
                while i < parts.len()
                    invariant
                        i <= parts@.len(),
                        forall|j: int| 0 <= j < i ==> !piece_has_slot(#[trigger] parts_model(parts@)[j]),
                    decreases parts@.len() - i,
                {
                    proof {
                        lemma_parts_model_index(parts@, i as int);
                        assert(decreases_to!(*self => *parts));
                        assert(decreases_to!(*parts => parts@));
                        assert(decreases_to!(parts@ => parts@[i as int]));
                    }
                    if parts[i].accepts_children() {
                        return true;
                    }
                    i = i + 1;
                }
                false
            },
        }
    }
}

impl MarkupPart {
    /// A copy of this part, equal to it in meaning.
    #[verifier::loop_isolation(false)]
    pub(crate) fn clone_part(&self) -> (r: MarkupPart)
        ensures
            part_model(r) == part_model(*self),
        decreases self,
    {
        match self {
            MarkupPart::Html(h) => MarkupPart::Html(h.clone()),
            MarkupPart::Children => MarkupPart::Children,
            MarkupPart::Fragment { name, parts } => {
                let mut copy: Vec<MarkupPart> = Vec::new();
                let mut i: usize = 0;
                while i < parts.len()
                    invariant
                        i <= parts@.len(),
                        parts_model(copy@) == parts_model(parts@.take(i as int)),
                    decreases parts@.len() - i,
                {
                    proof {
                        assert(decreases_to!(*self => *parts));
                        assert(decreases_to!(*parts => parts@));
                        assert(decreases_to!(parts@ => parts@[i as int]));
                    }
                    let part = parts[i].clone_part();
                    proof {
                        lemma_parts_model_push(copy@, part);
                        lemma_parts_model_take(parts@, i as int);
                    }
                    copy.push(part);
                    i = i + 1;
                }
                assert(parts@.take(parts@.len() as int) == parts@);
                MarkupPart::Fragment { name: name.clone(), parts: copy }
            },
        }
    }

    /// Appends this part to `out`, with `children` in place of every slot.
    #[verifier::loop_isolation(false)]
    pub(crate) fn append_with_children(&self, children: &Markup, out: &mut Vec<MarkupPart>)
        ensures
            parts_model(final(out)@) == substitute_piece(
                parts_model(old(out)@),
                part_model(*self),
                pieces_of(children@),
            ),
        decreases self,
    {
        match self {
            MarkupPart::Html(html) => push_markup_part(out, MarkupPart::Html(html.clone())),
            MarkupPart::Children => children.append_parts_to(out),
            MarkupPart::Fragment { name, parts } => {
                let mut fragment_parts: Vec<MarkupPart> = Vec::new();
                let mut i: usize = 0;
                while i < parts.len()
                    invariant
                        i <= parts@.len(),
                        parts_model(fragment_parts@) == substitute(
                            Seq::empty(),
                            parts_model(parts@.take(i as int)),
                            pieces_of(children@),
                        ),
                    decreases parts@.len() - i,
                {
                    proof {
                        assert(decreases_to!(*self => *parts));
                        assert(decreases_to!(*parts => parts@));
                        assert(decreases_to!(parts@ => parts@[i as int]));
                        lemma_parts_model_take(parts@, i as int);
                        assert(parts_model(parts@.take(i + 1)).drop_last() == parts_model(parts@.take(i as int)));
                    }
                    parts[i].append_with_children(children, &mut fragment_parts);
                    i = i + 1;
                }
                assert(parts@.take(parts@.len() as int) == parts@);
                push_markup_part(
                    out,
                    MarkupPart::Fragment { name: name.clone(), parts: fragment_parts },
                );
            },
        }
    }

    /// The parts of the first fragment called `target_name` within this part.
    #[verifier::loop_isolation(false)]
    pub(crate) fn find_fragment_parts<'a>(&'a self, target_name: &str) -> (r: Option<&'a Vec<MarkupPart>>)
        ensures
            match r {
                Some(parts) => find_in_piece(part_model(*self), target_name@) == Some(parts_model(parts@)),
                None => find_in_piece(part_model(*self), target_name@) is None,
            },
        decreases self,
    {
        match self {
            MarkupPart::Fragment { name, parts } => {
                if str_eq(name.as_str(), target_name) {
                    return Some(parts);
                }
                let mut i: usize = 0;
                while i < parts.len()
                    invariant
                        i <= parts@.len(),
                        find_fragment(parts_model(parts@.take(i as int)), target_name@) is None,
                    decreases parts@.len() - i,
                {
                    proof {
                        assert(decreases_to!(*self => *parts));
                        assert(decreases_to!(*parts => parts@));
                        assert(decreases_to!(parts@ => parts@[i as int]));
                        lemma_parts_model_take(parts@, i as int);
                        assert(parts_model(parts@.take(i + 1)).drop_last() == parts_model(parts@.take(i as int)));
                    }
                    let found = parts[i].find_fragment_parts(target_name);
                    if found.is_some() {
                        proof {
                            lemma_parts_model_len(parts@);
                            assert(parts_model(parts@.take(i + 1)) == parts_model(parts@).take(i + 1)) by {
                                lemma_parts_model_take_eq(parts@, i + 1);
                            }
                            lemma_find_fragment_prefix(parts_model(parts@), target_name@, i + 1);
                        }
                        return found;
                    }
                    i = i + 1;
                }
                assert(parts@.take(parts@.len() as int) == parts@);
                None
            },
            _ => None,
        }
    }
}

/// Appends a part, dropping empty html and joining it to html before it.
pub(crate) fn push_markup_part(parts: &mut Vec<MarkupPart>, part: MarkupPart)
    ensures
        parts_model(final(parts)@) == push_piece(parts_model(old(parts)@), part_model(part)),
{
    proof {
        lemma_parts_model_push(parts@, part);
    }
    match part {
        MarkupPart::Html(html) => {
            if html.as_str().is_empty() {
                return;
            }
            let n = parts.len();
            if n > 0 {
                if let MarkupPart::Html(_) = &parts[n - 1] {
                    proof {
                        lemma_parts_model_index(parts@, n - 1);
                        assert(parts@.drop_last().push(parts@[n - 1]) == parts@);
                        lemma_parts_model_push(parts@.drop_last(), parts@[n - 1]);
                    }
                    let last = parts.pop();
                    match last {
                        Some(MarkupPart::Html(mut text)) => {
                            text.append(html.as_str());
                            proof {
                                lemma_parts_model_push(parts@, MarkupPart::Html(text));
                            }
                            parts.push(MarkupPart::Html(text));
                        },
                        _ => {
                            proof {
                                assert(false);
                            }
                        },
                    }
                    return;
                }
                proof {
                    lemma_parts_model_index(parts@, n - 1);
                }
            }
            parts.push(MarkupPart::Html(html));
        },
        other => parts.push(other),
    }
}

pub(crate) proof fn lemma_parts_model_take_eq(ps: Seq<MarkupPart>, k: int)
    requires
        0 <= k <= ps.len(),
    ensures
        parts_model(ps.take(k)) == parts_model(ps).take(k),
    decreases ps.len(),
{
    lemma_parts_model_len(ps);
    if k < ps.len() {
        assert(ps.drop_last().take(k) == ps.take(k));
        lemma_parts_model_take_eq(ps.drop_last(), k);
        lemma_parts_model_len(ps.drop_last());
        assert(parts_model(ps).drop_last() == parts_model(ps.drop_last()));
        assert(parts_model(ps).take(k) == parts_model(ps).drop_last().take(k));
    } else {
        assert(ps.take(k) == ps);
        assert(parts_model(ps).take(k) == parts_model(ps));
    }
}

/// Rendered HTML, possibly with slots for children and named fragments.
#[derive(Debug, PartialEq, Eq, Hash, PartialOrd, Ord)]
pub struct Markup {
    html: String,
    template: Option<Vec<MarkupPart>>,
}

impl View for Markup {
    type V = MarkupModel;

    /// Where there is a template, the html is the template's: the type
    /// invariant keeps the stored html equal to it.
    closed spec fn view(&self) -> MarkupModel {
        match self.template {
            Some(parts) => MarkupModel {
                html: render_pieces(parts_model(parts@)),
                template: Some(parts_model(parts@)),
            },
            None => MarkupModel { html: self.html@, template: None },
        }
    }
}

/// Every markup is well formed: its html is the html of its template.
pub proof fn lemma_wf(m: Markup)
    ensures
        m@.wf(),
{
}

impl Markup {
    /// The stored html always agrees with the template.
    #[verifier::type_invariant]
    closed spec fn inv(self) -> bool {
        match self.template {
            Some(parts) => self.html@ == render_pieces(parts_model(parts@)) && has_template(parts_model(parts@)),
            None => true,
        }
    }


    /// Empty markup.
    pub fn new() -> (m: Self)
        ensures
            m@ == (MarkupModel { html: Seq::empty(), template: None }),
    {
        Markup { html: String::new(), template: None }
    }

    /// Markup made of `html`, inserted as it is, without escaping.
    pub fn raw(html: &str) -> (m: Self)
        ensures
            m@ == (MarkupModel { html: html@, template: None }),
    {
        Markup { html: String::from_str(html), template: None }
    }

    /// Markup made of an owned string of html, inserted as it is.
    pub(crate) fn from_html(html: String) -> (m: Self)
        ensures
            m@ == (MarkupModel { html: html@, template: None }),
    {
        Markup { html, template: None }
    }

    /// A slot: the place where a component's children go.
    pub fn slot() -> (m: Self)
        ensures
            m@ == from_pieces(seq![Piece::Slot]),
            m@ == (MarkupModel { html: Seq::empty(), template: Some(seq![Piece::Slot]) }),
            m@.accepts_children(),
            forall|children: MarkupModel| children.wf() ==> {
                &&& (#[trigger] m@.with_children(children)).html == children.html
                &&& m@.with_children(children).accepts_children() == children.accepts_children()
            },
    {
        let mut parts: Vec<MarkupPart> = Vec::new();
        parts.push(MarkupPart::Children);
        proof {
            lemma_parts_model_push(Seq::empty(), MarkupPart::Children);
            assert(parts@ == Seq::<MarkupPart>::empty().push(MarkupPart::Children));
            assert(seq![Piece::Slot].drop_last() == Seq::<Piece>::empty());
            lemma_single(Piece::Slot);
            assert(Seq::<Piece>::empty().push(Piece::Slot) == seq![Piece::Slot]);
            assert forall|children: MarkupModel| children.wf() implies {
                &&& (#[trigger] slot_model().with_children(children)).html == children.html
                &&& slot_model().with_children(children).accepts_children() == children.accepts_children()
            } by {
                law_slot_renders_children(children);
            }
            law_slot_renders_children(MarkupModel { html: Seq::empty(), template: None });
        }
        Self::from_parts(parts)
    }

    /// A named fragment holding a slot for its content; its content can be
    /// rendered on its own with [`Markup::render_fragment`].
    pub fn fragment(name: &str) -> (m: Self)
        ensures
            m@ == from_pieces(seq![Piece::Fragment(name@, seq![Piece::Slot])]),
            m@.html == Seq::<char>::empty(),
            m@.accepts_children(),
            m@.fragment(name@) is Some,
            forall|children: MarkupModel| children.wf() ==> {
                &&& (#[trigger] m@.with_children(children)).html == children.html
                &&& m@.with_children(children).fragment(name@) is Some
                &&& m@.with_children(children).fragment(name@).unwrap().html == children.html
            },
    {
        let mut body: Vec<MarkupPart> = Vec::new();
        body.push(MarkupPart::Children);
        let mut parts: Vec<MarkupPart> = Vec::new();
        parts.push(MarkupPart::Fragment { name: String::from_str(name), parts: body });
        proof {
            lemma_parts_model_push(Seq::empty(), MarkupPart::Children);
            assert(body@ == Seq::<MarkupPart>::empty().push(MarkupPart::Children));
            lemma_parts_model_push(Seq::empty(), parts@[0]);
            assert(parts@ == Seq::<MarkupPart>::empty().push(parts@[0]));
            assert forall|children: MarkupModel| children.wf() implies {
                &&& (#[trigger] fragment_model(name@).with_children(children)).html == children.html
                &&& fragment_model(name@).with_children(children).fragment(name@) is Some
                &&& fragment_model(name@).with_children(children).fragment(name@).unwrap().html == children.html
            } by {
                law_fragment_slot_renders_children(name@, children);
            }
            law_fragment_slot_renders_children(name@, MarkupModel { html: Seq::empty(), template: None });
        }
        Self::from_parts(parts)
    }

    /// The `<!DOCTYPE html>` declaration.
    pub fn doctype() -> (m: Self)
        ensures
            m@ == (MarkupModel { html: "<!DOCTYPE html>"@, template: None }),
    {
        Self::raw("<!DOCTYPE html>")
    }

    /// The rendered html.
    pub fn as_str(&self) -> (s: &str)
        ensures
            s@ == self@.html,
    {
        proof {
            use_type_invariant(self);
        }
        self.html.as_str()
    }

    /// The rendered html, owned.
    pub fn into_string(self) -> (s: String)
        ensures
            s@ == self@.html,
    {
        proof {
            use_type_invariant(&self);
        }
        self.html
    }

    /// The rendered html, as a new string.
    pub fn to_string(&self) -> (s: String)
        ensures
            s@ == self@.html,
    {
        proof {
            use_type_invariant(self);
        }
        self.html.clone()
    }

    /// Whether the markup renders nothing and has no template.
    pub fn is_empty(&self) -> (b: bool)
        ensures
            b == (self@.html.len() == 0 && self@.template is None),
    {
        proof {
            use_type_invariant(self);
        }
        self.html.as_str().is_empty() && self.template.is_none()
    }

    /// Whether the markup has a slot, at any depth, for children.
    pub fn accepts_children(&self) -> (b: bool)
        ensures
            b == self@.accepts_children(),
    {
        match &self.template {
            None => false,
            Some(parts) => {
                proof {
                    lemma_has_slot_exists(parts_model(parts@));
                    lemma_parts_model_len(parts@);
                }
                let mut i: usize = 0;
                while i < parts.len()
                    invariant
                        i <= parts@.len(),
                        parts_model(parts@).len() == parts@.len(),
                        self@.template == Some(parts_model(parts@)),
                        forall|j: int| 0 <= j < i ==> !piece_has_slot(#[trigger] parts_model(parts@)[j]),
                        has_slot(parts_model(parts@)) <==> exists|j: int| 0 <= j < parts_model(parts@).len() && piece_has_slot(#[trigger] parts_model(parts@)[j]),
                    decreases parts@.len() - i,
                {
                    proof {
                        lemma_parts_model_index(parts@, i as int);
                    }
                    if parts[i].accepts_children() {
                        return true;
                    }
                    i = i + 1;
                }
                false
            },
        }
    }

    /// This markup with `children` rendered in place of every slot.
    pub fn with_children(&self, children: Markup) -> (m: Self)
        requires
            self@.accepts_children(),
        ensures
            m@ == self@.with_children(children@),
            m@.html == fill(self@.template.unwrap(), children@.html),
            m@.accepts_children() == children@.accepts_children(),
            forall|name: Seq<char>| #[trigger] self@.fragment(name) is Some ==> m@.fragment(name) is Some,
            m@.template matches Some(t) ==> is_normal(t),
    {
        let template = match &self.template {
            Some(template) => template,
            None => {
                proof {
                    assert(false);
                }
                return Markup::new();
            },
        };
        let mut parts: Vec<MarkupPart> = Vec::new();
        let mut i: usize = 0;
        while i < template.len()
            invariant
                i <= template@.len(),
                self@.template == Some(parts_model(template@)),
                parts_model(parts@) == substitute(
                    Seq::empty(),
                    parts_model(template@.take(i as int)),
                    pieces_of(children@),
                ),
            decreases template@.len() - i,
        {
            proof {
                lemma_parts_model_take(template@, i as int);
                assert(parts_model(template@.take(i + 1)).drop_last() == parts_model(template@.take(i as int)));
            }
            template[i].append_with_children(&children, &mut parts);
            i = i + 1;
        }
        assert(template@.take(template@.len() as int) == template@);
        proof {
            lemma_wf(*self);
            lemma_wf(children);
            law_with_children_html(self@, children@);
            law_with_children_keeps_slots(self@, children@);
            law_from_pieces_normal(substitute(Seq::empty(), parts_model(template@), pieces_of(children@)));
            assert forall|name: Seq<char>| #[trigger] self@.fragment(name) is Some implies self@.with_children(children@).fragment(name) is Some by {
                law_fragment_names_survive(self@, children@, name);
            }
        }
        Self::from_parts(parts)
    }

    /// The fragment called `name`, rendered on its own.
    pub fn render_fragment(&self, name: &str) -> (m: Self)
        requires
            self@.fragment(name@) is Some,
        ensures
            m@ == self@.fragment(name@).unwrap(),
            is_infix(m@.html, self@.html),
    {
        match self.try_render_fragment(name) {
            Some(m) => m,
            None => {
                proof {
                    assert(false);
                }
                Markup::new()
            },
        }
    }

    /// The fragment called `name`, rendered on its own, if there is one.
    pub fn try_render_fragment(&self, name: &str) -> (r: Option<Self>)
        ensures
            match r {
                Some(m) => self@.fragment(name@) == Some(m@) && is_infix(m@.html, self@.html),
                None => self@.fragment(name@) is None,
            },
    {
        let template = match &self.template {
            Some(template) => template,
            None => return None,
        };
        let mut i: usize = 0;
        while i < template.len()
            invariant
                i <= template@.len(),
                self@.template == Some(parts_model(template@)),
                find_fragment(parts_model(template@.take(i as int)), name@) is None,
            decreases template@.len() - i,
        {
            proof {
                lemma_parts_model_take(template@, i as int);
                assert(parts_model(template@.take(i + 1)).drop_last() == parts_model(template@.take(i as int)));
            }
            let found = template[i].find_fragment_parts(name);
            match found {
                Some(parts) => {
                    proof {
                        lemma_parts_model_len(template@);
                        lemma_parts_model_take_eq(template@, i + 1);
                        lemma_find_fragment_prefix(parts_model(template@), name@, i + 1);
                        lemma_wf(*self);
                        law_fragment_within_page(self@, name@);
                    }
                    return Some(Self::from_parts(clone_parts(parts)));
                },
                None => {},
            }
            i = i + 1;
        }
        assert(template@.take(template@.len() as int) == template@);
        None
    }

    /// The markup that `parts` make, in normal form.
    pub(crate) fn from_parts(parts: Vec<MarkupPart>) -> (m: Self)
        ensures
            m@ == from_pieces(parts_model(parts@)),
        decreases parts,
    {
        let ghost model = parts_model(parts@);
        proof {
            lemma_parts_model_len(parts@);
        }
        let ghost given = parts;
        let mut html = String::new();
        let mut normalized: Vec<MarkupPart> = Vec::new();
        let mut has_template_parts = false;
        for part in it: parts
            invariant
                it.seq() == given@,
                model == parts_model(given@),
                model.len() == given@.len(),
                html@ == render_pieces(model.take(it.index() as int)),
                parts_model(normalized@) == normalize(model.take(it.index() as int)),
                has_template_parts == has_template(model.take(it.index() as int)),
        {
            let ghost i = it.index() as int;
            proof {
                lemma_parts_model_index(given@, i);
                assert(model.take(i + 1).drop_last() == model.take(i));
                assert(model.take(i + 1).last() == model[i]);
                assert(render_pieces(model.take(i + 1)) == render_pieces(model.take(i)) + render_piece(model[i]));
                assert(normalize(model.take(i + 1)) == push_piece(normalize(model.take(i)), normalize_piece(model[i])));
                lemma_has_template_push(model.take(i), model[i]);
                assert(model.take(i).push(model[i]) == model.take(i + 1));
                assert(part == given@[i]);
            }
            match part {
                MarkupPart::Html(part_html) => {
                    if !part_html.as_str().is_empty() {
                        html.append(part_html.as_str());
                        push_markup_part(&mut normalized, MarkupPart::Html(part_html));
                    }
                },
                MarkupPart::Children => {
                    has_template_parts = true;
                    proof {
                        lemma_parts_model_push(normalized@, MarkupPart::Children);
                    }
                    normalized.push(MarkupPart::Children);
                },
                MarkupPart::Fragment { name, parts: fragment_parts } => {
                    has_template_parts = true;
                    proof {
                        assert(decreases_to!(given => given@));
                        assert(decreases_to!(given@ => given@[i]));
                        assert(decreases_to!(given@[i] => fragment_parts));
                    }
                    let fragment = Self::from_parts(fragment_parts);
                    proof {
                        use_type_invariant(&fragment);
                    }
                    html.append(fragment.html.as_str());
                    proof {
                        lemma_parts_model_len(fragment_parts@);
                        if !has_template(parts_model(fragment_parts@)) {
                            lemma_normalize_text_only(parts_model(fragment_parts@));
                        }
                    }
                    let body = fragment.into_parts();
                    push_markup_part(&mut normalized, MarkupPart::Fragment { name, parts: body });
                },
            }
        }
        proof {
            assert(model.take(model.len() as int) == model);
            lemma_render_normalize(model);
            lemma_normalize_keeps_template(model);
        }
        if has_template_parts {
            Markup { html, template: Some(normalized) }
        } else {
            Markup::from_html(html)
        }
    }

    /// The parts of this markup, in normal form.
    fn into_parts(self) -> (parts: Vec<MarkupPart>)
        ensures
            parts_model(parts@) == into_pieces(self@),
    {
        match self.template {
            Some(template) => template,
            None => {
                let mut parts: Vec<MarkupPart> = Vec::new();
                if !self.html.as_str().is_empty() {
                    proof {
                        lemma_parts_model_push(parts@, MarkupPart::Html(self.html));
                    }
                    parts.push(MarkupPart::Html(self.html));
                }
                parts
            },
        }
    }

    /// Appends the parts of this markup to `parts`.
    pub(crate) fn append_parts_to(&self, parts: &mut Vec<MarkupPart>)
        ensures
            parts_model(final(parts)@) == push_all(parts_model(old(parts)@), pieces_of(self@)),
    {
        match &self.template {
            Some(template) => {
                let mut i: usize = 0;
                while i < template.len()
                    invariant
                        i <= template@.len(),
                        self@.template == Some(parts_model(template@)),
                        parts_model(parts@) == push_all(
                            parts_model(old(parts)@),
                            parts_model(template@.take(i as int)),
                        ),
                    decreases template@.len() - i,
                {
                    proof {
                        lemma_parts_model_take(template@, i as int);
                        assert(parts_model(template@.take(i + 1)).drop_last() == parts_model(template@.take(i as int)));
                    }
                    push_markup_part(parts, template[i].clone_part());
                    i = i + 1;
                }
                assert(template@.take(template@.len() as int) == template@);
            },
            None => {
                proof {
                    let t = seq![Piece::Text(self@.html)];
                    assert(t.drop_last() == Seq::<Piece>::empty());
                    assert(t.last() == Piece::Text(self@.html));
                    assert(push_all(parts_model(parts@), t.drop_last()) == parts_model(parts@));
                    assert(push_all(parts_model(parts@), t) == push_piece(parts_model(parts@), Piece::Text(self@.html)));
                }
                push_markup_part(parts, MarkupPart::Html(self.html.clone()));
            },
        }
    }

    /// Whether the markup has a template of slots or fragments.
    pub(crate) fn has_template(&self) -> (b: bool)
        ensures
            b == (self@.template is Some),
            self@.template matches Some(t) ==> has_template(t),
    {
        proof {
            use_type_invariant(self);
        }
        self.template.is_some()
    }
}

impl Clone for Markup {
    fn clone(&self) -> (r: Self)
        ensures
            r@ == self@,
    {
        let template = match &self.template {
            Some(parts) => Some(clone_parts(parts)),
            None => None,
        };
        proof {
            use_type_invariant(self);
        }
        Markup { html: self.html.clone(), template }
    }
}

impl Default for Markup {
    fn default() -> (m: Self)
        ensures
            m@ == (MarkupModel { html: Seq::empty(), template: None }),
    {
        Self::new()
    }
}

/// Copies a sequence of parts, keeping their meaning.
pub(crate) fn clone_parts(parts: &Vec<MarkupPart>) -> (r: Vec<MarkupPart>)
    ensures
        parts_model(r@) == parts_model(parts@),
{
    let mut copy: Vec<MarkupPart> = Vec::new();
    let mut i: usize = 0;
    while i < parts.len()
        invariant
            i <= parts@.len(),
            parts_model(copy@) == parts_model(parts@.take(i as int)),
        decreases parts@.len() - i,
    {
        let part = parts[i].clone_part();
        proof {
            lemma_parts_model_push(copy@, part);
            lemma_parts_model_take(parts@, i as int);
        }
        copy.push(part);
        i = i + 1;
    }
    assert(parts@.take(parts@.len() as int) == parts@);
    copy
}

} // verus!
