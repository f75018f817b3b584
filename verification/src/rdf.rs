//! Statements about resources.

use vstd::prelude::*;

use crate::text;

verus! {

/// The object of a statement.
#[derive(Debug)]
pub enum Term {
    /// A resource.
    Iri(String),
    /// A value with its datatype.
    Literal(String, String),
}

/// What a [`Term`] says, as plain values.
#[verifier::ext_equal]
pub enum TermView {
    /// A resource.
    Iri(Seq<char>),
    /// A value with its datatype.
    Literal(Seq<char>, Seq<char>),
}

impl View for Term {
    type V = TermView;

    open spec fn view(&self) -> TermView {
        match self {
            Term::Iri(iri) => TermView::Iri(iri@),
            Term::Literal(value, datatype) => TermView::Literal(value@, datatype@),
        }
    }
}

impl Term {
    /// A resource.
    pub fn iri(iri: &str) -> (r: Term)
        ensures
            r@ == TermView::Iri(iri@),
    {
        Term::Iri(text::owned(iri))
    }

    /// A value with its datatype.
    pub fn typed(value: &str, datatype: &str) -> (r: Term)
        ensures
            r@ == TermView::Literal(value@, datatype@),
    {
        Term::Literal(text::owned(value), text::owned(datatype))
    }

    /// The resource that this term names, if it names one.
    pub fn as_iri(&self) -> (r: Option<&str>)
        ensures
            (match r {
                Some(iri) => self@ == TermView::Iri(iri@),
                None => !(self@ is Iri),
            }),
    {
        match self {
            Term::Iri(iri) => Some(iri.as_str()),
            Term::Literal(_, _) => None,
        }
    }

    /// The text of this term: a resource's name or a value's written form.
    pub fn lexical(&self) -> (r: &str)
        ensures
            r@ == lexical_text(self@),
    {
        match self {
            Term::Iri(iri) => iri.as_str(),
            Term::Literal(value, _) => value.as_str(),
        }
    }
}

/// The text of a term: a resource's name or a value's written form.
pub open spec fn lexical_text(t: TermView) -> Seq<char> {
    match t {
        TermView::Iri(iri) => iri,
        TermView::Literal(value, _) => value,
    }
}

/// One statement.
#[derive(Debug)]
pub struct Triple {
    /// What it is about.
    pub subject: String,
    /// The property it states.
    pub predicate: String,
    /// The property's value.
    pub object: Term,
}

/// What a [`Triple`] says, as plain values.
#[verifier::ext_equal]
pub struct TripleView {
    /// What it is about.
    pub subject: Seq<char>,
    /// The property it states.
    pub predicate: Seq<char>,
    /// The property's value.
    pub object: TermView,
}

impl View for Triple {
    type V = TripleView;

    open spec fn view(&self) -> TripleView {
        TripleView {
            subject: self.subject@,
            predicate: self.predicate@,
            object: self.object@,
        }
    }
}

/// Statements in the order they were made.
#[derive(Debug)]
pub struct Graph {
    triples: Vec<Triple>,
}

/// What a list of statements says.
pub open spec fn triple_views(list: Seq<Triple>) -> Seq<TripleView> {
    Seq::new(list.len(), |i: int| list[i]@)
}

impl View for Graph {
    type V = Seq<TripleView>;

    closed spec fn view(&self) -> Seq<TripleView> {
        triple_views(self.triples@)
    }
}

/// One statement, as plain values.
pub open spec fn statement(subject: Seq<char>, predicate: Seq<char>, object: TermView) -> TripleView {
    TripleView { subject, predicate, object }
}

/// The property that states a resource's type.
pub open spec fn type_predicate() -> Seq<char> {
    "http://www.w3.org/1999/02/22-rdf-syntax-ns#type"@
}

/// The statement that a resource has a type.
pub open spec fn typed_as(subject: Seq<char>, class: Seq<char>) -> TripleView {
    statement(subject, type_predicate(), TermView::Iri(class))
}

/// The first value that the statements give a property of a resource.
pub open spec fn object_of(g: Seq<TripleView>, subject: Seq<char>, predicate: Seq<char>) -> Option<
    TermView,
>
    decreases g.len(),
{
    if g.len() == 0 {
        None
    } else if g[0].subject == subject && g[0].predicate == predicate {
        Some(g[0].object)
    } else {
        object_of(g.skip(1), subject, predicate)
    }
}

impl Graph {
    /// No statements.
    pub fn new() -> (r: Graph)
        ensures
            r@ == Seq::<TripleView>::empty(),
    {
        let r = Graph { triples: Vec::new() };
        proof {
            assert(r@ == Seq::<TripleView>::empty());
        }
        r
    }

    /// State a property of a resource.
    pub fn add(&mut self, subject: &str, predicate: &str, object: Term)
        ensures
            final(self)@ == old(self)@.push(statement(subject@, predicate@, object@)),
    {
        self.triples.push(
            Triple { subject: text::owned(subject), predicate: text::owned(predicate), object },
        );
        proof {
            assert(self@ == old(self)@.push(statement(subject@, predicate@, object@)));
        }
    }

    /// State that a resource has a type.
    pub fn add_type(&mut self, subject: &str, class: &str)
        ensures
            final(self)@ == old(self)@.push(typed_as(subject@, class@)),
    {
        self.add(
            subject,
            "http://www.w3.org/1999/02/22-rdf-syntax-ns#type",
            Term::iri(class),
        );
    }

    /// The first value of a property of a resource.
    pub fn object(&self, subject: &str, predicate: &str) -> (r: Option<&Term>)
        ensures
            (match r {
                Some(t) => object_of(self@, subject@, predicate@) == Some(t@),
                None => object_of(self@, subject@, predicate@) is None,
            }),
    {
        let mut i: usize = 0;
        proof {
            assert(self@.skip(0) == self@);
        }
        while i < self.triples.len()
            invariant
                i <= self.triples.len(),
                object_of(self@, subject@, predicate@) == object_of(
                    self@.skip(i as int),
                    subject@,
                    predicate@,
                ),
            decreases self.triples.len() - i,
        {
            let t = &self.triples[i];
            proof {
                assert(self@.skip(i as int)[0] == t@);
                assert(self@.skip(i as int).skip(1) == self@.skip(i + 1));
            }
            if text::same(t.subject.as_str(), subject) && text::same(
                t.predicate.as_str(),
                predicate,
            ) {
                return Some(&t.object);
            }
            i = i + 1;
        }
        None
    }

    /// The statements, in the order they were made.
    pub fn triples(&self) -> (r: &Vec<Triple>)
        ensures
            triple_views(r@) == self@,
    {
        &self.triples
    }
}

/// A value between quotation marks: four characters are written as two.
pub open spec fn quoted_char(c: char) -> Seq<char> {
    if c == '\\' {
        seq!['\\', '\\']
    } else if c == '"' {
        seq!['\\', '"']
    } else if c == '\n' {
        seq!['\\', 'n']
    } else if c == '\r' {
        seq!['\\', 'r']
    } else {
        seq![c]
    }
}

/// A value as it stands between quotation marks.
pub open spec fn quoted(s: Seq<char>) -> Seq<char>
    decreases s.len(),
{
    if s.len() == 0 {
        Seq::empty()
    } else {
        quoted(s.drop_last()) + quoted_char(s.last())
    }
}

/// A term in Turtle.
pub open spec fn turtle_term(t: TermView) -> Seq<char> {
    match t {
        TermView::Iri(iri) => "<"@ + iri + ">"@,
        TermView::Literal(value, datatype) => "\""@ + quoted(value) + "\"^^<"@ + datatype + ">"@,
    }
}

/// A statement in Turtle, one line.
pub open spec fn turtle_line(t: TripleView) -> Seq<char> {
    "<"@ + t.subject + "> <"@ + t.predicate + "> "@ + turtle_term(t.object) + " .\n"@
}

/// Statements in Turtle, one line each, in the order they were made.
pub open spec fn turtle(g: Seq<TripleView>) -> Seq<char>
    decreases g.len(),
{
    if g.len() == 0 {
        Seq::empty()
    } else {
        turtle(g.drop_last()) + turtle_line(g.last())
    }
}

/// A value as it stands between quotation marks.
fn quote(s: &str) -> (r: String)
    ensures
        r@ == quoted(s@),
{
    let chars = text::characters(s);
    let mut out = String::new();
    let mut i: usize = 0;
    proof {
        assert(out@ =~= quoted(s@.take(0)));
    }
    while i < chars.len()
        invariant
            i <= chars.len(),
            chars@ == s@,
            out@ == quoted(s@.take(i as int)),
        decreases chars.len() - i,
    {
        let c = chars[i];
        let ghost before = out@;
        proof {
            assert(s@.take(i + 1).drop_last() =~= s@.take(i as int));
            assert(s@.take(i + 1).last() == c);
        }
        if c == '\\' {
            out.push('\\');
            out.push('\\');
        } else if c == '"' {
            out.push('\\');
            out.push('"');
        } else if c == '\n' {
            out.push('\\');
            out.push('n');
        } else if c == '\r' {
            out.push('\\');
            out.push('r');
        } else {
            out.push(c);
        }
        proof {
            assert(out@ =~= before + quoted_char(c));
        }
        i = i + 1;
    }
    proof {
        assert(s@.take(i as int) =~= s@);
    }
    out
}

impl Graph {
    /// The statements in Turtle, one line each, in the order they were made.
    pub fn serialize(&self) -> (r: String)
        ensures
            r@ == turtle(self@),
    {
        let mut out = String::new();
        let mut i: usize = 0;
        proof {
            assert(out@ =~= turtle(self@.take(0)));
        }
        while i < self.triples.len()
            invariant
                i <= self.triples.len(),
                out@ == turtle(self@.take(i as int)),
            decreases self.triples.len() - i,
        {
            let triple = &self.triples[i];
            proof {
                assert(self@.take(i + 1).drop_last() =~= self@.take(i as int));
                assert(self@.take(i + 1).last() == triple@);
            }
            let object = match &triple.object {
                Term::Iri(iri) => text::cat3("<", iri.as_str(), ">"),
                Term::Literal(value, datatype) => text::cat5(
                    "\"",
                    quote(value.as_str()).as_str(),
                    "\"^^<",
                    datatype.as_str(),
                    ">",
                ),
            };
            let line = text::cat7(
                "<",
                triple.subject.as_str(),
                "> <",
                triple.predicate.as_str(),
                "> ",
                object.as_str(),
                " .\n",
            );
            out = text::cat2(out.as_str(), line.as_str());
            i = i + 1;
        }
        proof {
            assert(self@.take(i as int) =~= self@);
        }
        out
    }
}

/// A value that stands before a closing quotation mark, and what follows the mark.
pub open spec fn value_read(s: Seq<char>) -> Option<(Seq<char>, Seq<char>)>
    decreases s.len(),
{
    if s.len() == 0 {
        None
    } else if s[0] == '"' {
        Some((Seq::empty(), s.skip(1)))
    } else if s[0] == '\\' {
        if s.len() < 2 {
            None
        } else {
            match value_read(s.skip(2)) {
                None => None,
                Some((value, rest)) => Some(
                    (
                        seq![
                            if s[1] == 'n' {
                                '\n'
                            } else if s[1] == 'r' {
                                '\r'
                            } else {
                                s[1]
                            },
                        ] + value,
                        rest,
                    ),
                ),
            }
        }
    } else {
        match value_read(s.skip(1)) {
            None => None,
            Some((value, rest)) => Some((seq![s[0]] + value, rest)),
        }
    }
}

/// A value is quoted character by character from its front.
proof fn quoted_from_front(s: Seq<char>)
    requires
        s.len() > 0,
    ensures
        quoted(s) == quoted_char(s[0]) + quoted(s.skip(1)),
    decreases s.len(),
{
    let rest = s.skip(1);
    if s.len() == 1 {
        assert(s.drop_last() =~= Seq::empty());
        assert(rest =~= Seq::empty());
        assert(quoted(s.drop_last()) =~= Seq::empty());
        assert(quoted(s) =~= quoted_char(s[0]) + quoted(rest));
    } else {
        quoted_from_front(s.drop_last());
        assert(s.drop_last().skip(1) =~= rest.drop_last());
        assert(rest.last() == s.last());
        assert(quoted(s) =~= quoted_char(s[0]) + quoted(rest));
    }
}

/// A quoted value is read back as it was, whatever follows it: no character of it ends it
/// or breaks its line.
pub proof fn values_come_back(value: Seq<char>, rest: Seq<char>)
    ensures
        value_read(quoted(value) + seq!['"'] + rest) == Some((value, rest)),
        forall|i: int|
            0 <= i < quoted(value).len() ==> #[trigger] quoted(value)[i] != '\n'
                && quoted(value)[i] != '\r',
    decreases value.len(),
{
    let s = quoted(value) + seq!['"'] + rest;
    if value.len() == 0 {
        assert(s =~= seq!['"'] + rest);
        assert(s.skip(1) =~= rest);
        assert(value =~= Seq::empty());
    } else {
        let tail = value.skip(1);
        quoted_from_front(value);
        values_come_back(tail, rest);
        let first = quoted_char(value[0]);
        let after = quoted(tail) + seq!['"'] + rest;
        assert(s =~= first + after);
        assert(s.skip(first.len() as int) =~= after);
        assert(seq![value[0]] + tail =~= value);
        assert(s[0] == first[0]);
        if first.len() == 2 {
            assert(s[1] == first[1]);
        }
        assert forall|i: int| 0 <= i < quoted(value).len() implies #[trigger] quoted(value)[i]
            != '\n' && quoted(value)[i] != '\r' by {
            if i >= first.len() {
                assert(quoted(value)[i] == quoted(tail)[i - first.len()]);
            }
        }
    }
}

/// A name that stands before a closing bracket, and what follows the bracket.
pub open spec fn name_read(s: Seq<char>) -> Option<(Seq<char>, Seq<char>)>
    decreases s.len(),
{
    if s.len() == 0 {
        None
    } else if s[0] == '>' {
        Some((Seq::empty(), s.skip(1)))
    } else {
        match name_read(s.skip(1)) {
            None => None,
            Some((name, rest)) => Some((seq![s[0]] + name, rest)),
        }
    }
}

/// A name without a closing bracket is read back as it was.
proof fn names_come_back(name: Seq<char>, rest: Seq<char>)
    requires
        !name.contains('>'),
    ensures
        name_read(name + seq!['>'] + rest) == Some((name, rest)),
    decreases name.len(),
{
    let s = name + seq!['>'] + rest;
    if name.len() == 0 {
        assert(s =~= seq!['>'] + rest);
        assert(s.skip(1) =~= rest);
        assert(name =~= Seq::empty());
    } else {
        let tail = name.skip(1);
        assert(name[0] != '>');
        assert forall|i: int| 0 <= i < tail.len() implies tail[i] != '>' by {
            assert(tail[i] == name[i + 1]);
        }
        names_come_back(tail, rest);
        assert(s.skip(1) =~= tail + seq!['>'] + rest);
        assert(seq![name[0]] + tail =~= name);
    }
}

/// The object of a statement that begins a text, and what follows it.
pub open spec fn term_read(s: Seq<char>) -> Option<(TermView, Seq<char>)> {
    if s.len() == 0 {
        None
    } else if s[0] == '<' {
        match name_read(s.skip(1)) {
            None => None,
            Some((iri, rest)) => Some((TermView::Iri(iri), rest)),
        }
    } else if s[0] == '"' {
        match value_read(s.skip(1)) {
            None => None,
            Some((value, rest)) => if rest.len() < 3 || rest.take(3) != seq!['^', '^', '<'] {
                None
            } else {
                match name_read(rest.skip(3)) {
                    None => None,
                    Some((datatype, rest)) => Some((TermView::Literal(value, datatype), rest)),
                }
            },
        }
    } else {
        None
    }
}

/// The statement that begins a text, and what follows its line.
pub open spec fn line_read(s: Seq<char>) -> Option<(TripleView, Seq<char>)> {
    if s.len() == 0 || s[0] != '<' {
        None
    } else {
        match name_read(s.skip(1)) {
            None => None,
            Some((subject, a)) => if a.len() < 2 || a.take(2) != seq![' ', '<'] {
                None
            } else {
                match name_read(a.skip(2)) {
                    None => None,
                    Some((predicate, b)) => if b.len() < 1 || b[0] != ' ' {
                        None
                    } else {
                        match term_read(b.skip(1)) {
                            None => None,
                            Some((object, c)) => if c.len() < 3 || c.take(3) != seq![
                                ' ',
                                '.',
                                '\n',
                            ] {
                                None
                            } else {
                                Some((statement(subject, predicate, object), c.skip(3)))
                            },
                        }
                    },
                }
            },
        }
    }
}

/// Whether a statement's names can stand in brackets.
pub open spec fn can_be_written(t: TripleView) -> bool {
    &&& !t.subject.contains('>')
    &&& !t.predicate.contains('>')
    &&& match t.object {
        TermView::Iri(iri) => !iri.contains('>'),
        TermView::Literal(_, datatype) => !datatype.contains('>'),
    }
}

/// A statement's object in Turtle is read back as it was.
proof fn terms_come_back(t: TermView, rest: Seq<char>)
    requires
        match t {
            TermView::Iri(iri) => !iri.contains('>'),
            TermView::Literal(_, datatype) => !datatype.contains('>'),
        },
    ensures
        term_read(turtle_term(t) + rest) == Some((t, rest)),
{
    reveal_strlit("<");
    reveal_strlit(">");
    reveal_strlit("\"");
    reveal_strlit("\"^^<");
    let s = turtle_term(t) + rest;
    match t {
        TermView::Iri(iri) => {
            names_come_back(iri, rest);
            assert(s.skip(1) =~= iri + seq!['>'] + rest);
            assert(s[0] == '<');
        },
        TermView::Literal(value, datatype) => {
            let end = datatype + seq!['>'] + rest;
            let follow = seq!['^', '^', '<'] + end;
            values_come_back(value, follow);
            names_come_back(datatype, rest);
            assert(s.skip(1) =~= quoted(value) + seq!['"'] + follow);
            assert(s[0] == '"');
            assert(follow.take(3) =~= seq!['^', '^', '<']);
            assert(follow.skip(3) =~= end);
        },
    }
}

/// A statement in Turtle is read back as it was, whatever follows its line.
pub proof fn statements_come_back(t: TripleView, rest: Seq<char>)
    requires
        can_be_written(t),
    ensures
        line_read(turtle_line(t) + rest) == Some((t, rest)),
{
    reveal_strlit("<");
    reveal_strlit("> <");
    reveal_strlit("> ");
    reveal_strlit(" .\n");
    let s = turtle_line(t) + rest;
    let c = seq![' ', '.', '\n'] + rest;
    let term = turtle_term(t.object) + c;
    let b = seq![' '] + term;
    let a = seq![' ', '<'] + (t.predicate + seq!['>'] + b);
    terms_come_back(t.object, c);
    names_come_back(t.predicate, b);
    names_come_back(t.subject, a);
    assert(s[0] == '<');
    assert(s.skip(1) =~= t.subject + seq!['>'] + a);
    assert(a.take(2) =~= seq![' ', '<']);
    assert(a.skip(2) =~= t.predicate + seq!['>'] + b);
    assert(b.skip(1) =~= term);
    assert(c.take(3) =~= seq![' ', '.', '\n']);
    assert(c.skip(3) =~= rest);
}

/// The statements of a text, line by line.
pub open spec fn turtle_read(s: Seq<char>) -> Option<Seq<TripleView>>
    decreases s.len(),
{
    if s.len() == 0 {
        Some(Seq::empty())
    } else {
        match line_read(s) {
            None => None,
            Some((t, rest)) => if rest.len() >= s.len() {
                None
            } else {
                match turtle_read(rest) {
                    None => None,
                    Some(more) => Some(seq![t] + more),
                }
            },
        }
    }
}

/// Statements in Turtle begin with the first.
proof fn turtle_from_front(g: Seq<TripleView>)
    requires
        g.len() > 0,
    ensures
        turtle(g) == turtle_line(g[0]) + turtle(g.skip(1)),
    decreases g.len(),
{
    let rest = g.skip(1);
    if g.len() == 1 {
        assert(g.drop_last() =~= Seq::empty());
        assert(rest =~= Seq::empty());
        assert(turtle(g.drop_last()) =~= Seq::empty());
        assert(turtle(g) =~= turtle_line(g[0]) + turtle(rest));
    } else {
        turtle_from_front(g.drop_last());
        assert(g.drop_last().skip(1) =~= rest.drop_last());
        assert(rest.last() == g.last());
        assert(turtle(g) =~= turtle_line(g[0]) + turtle(rest));
    }
}

/// Statements in Turtle are read back as they were, in the order they were made.
pub proof fn graphs_come_back(g: Seq<TripleView>)
    requires
        forall|i: int| 0 <= i < g.len() ==> can_be_written(#[trigger] g[i]),
    ensures
        turtle_read(turtle(g)) == Some(g),
    decreases g.len(),
{
    if g.len() > 0 {
        let rest = g.skip(1);
        turtle_from_front(g);
        assert forall|i: int| 0 <= i < rest.len() implies can_be_written(#[trigger] rest[i]) by {
            assert(rest[i] == g[i + 1]);
        }
        graphs_come_back(rest);
        assert(can_be_written(g[0]));
        statements_come_back(g[0], turtle(rest));
        assert(turtle_line(g[0]).len() > 0) by {
            reveal_strlit("<");
        }
        assert(seq![g[0]] + rest =~= g);
    } else {
        assert(g =~= Seq::empty());
    }
}

} // verus!
