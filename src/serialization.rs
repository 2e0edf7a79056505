use vstd::prelude::*;

use crate::alternative::AlternativeDeclaration;
use crate::choice::ChoiseDeclaration;
use crate::constant::{ConstantBody, ConstantDeclaration};
use crate::declaration::Declaration;
use crate::document::Document;
use crate::expression::{BinaryExpressionKind, Expression, ExpressionEnum, Literal, UnaryExpressionKind};
use crate::option::{OptionDeclaration, OptionField};
use crate::text::{push_char, push_signed, push_text, signed_text};

verus! {

/// Appends `indent` spaces.
pub fn indent(out: &mut String, indent: usize)
    ensures
        final(out)@ == old(out)@ + spaces(indent as nat),
{
    let mut k: usize = 0;
    while k < indent
        invariant
            k <= indent,
            out@ == old(out)@ + Seq::new(k as nat, |x: int| ' '),
        decreases indent - k,
    {
        push_char(out, ' ');
        assert(old(out)@ + Seq::new((k + 1) as nat, |x: int| ' ') =~= (old(out)@ + Seq::new(
            k as nat,
            |x: int| ' ',
        )).push(' '));
        k = k + 1;
    }
}

/// Which declaration form encloses the one being written: inside an option
/// or a constant block, nested entries are written without their keyword.
#[derive(Debug, Clone, Copy, PartialEq, Eq, Structural)]
pub enum EmissionKind {
    Non,
    Opt,
    Const,
}

#[derive(Debug, Clone, Copy, PartialEq, Eq)]
pub struct SerializationContext {
    pub indent: usize,
    pub emission_kind: EmissionKind,
}

/// The context one level deeper.
pub open spec fn deeper(ctx: SerializationContext) -> SerializationContext {
    SerializationContext {
        indent: if ctx.indent < usize::MAX {
            (ctx.indent + 1) as usize
        } else {
            ctx.indent
        },
        emission_kind: ctx.emission_kind,
    }
}

pub open spec fn with_kind(ctx: SerializationContext, k: EmissionKind) -> SerializationContext {
    SerializationContext { indent: ctx.indent, emission_kind: k }
}

pub open spec fn spaces(n: nat) -> Seq<char> {
    Seq::new(n, |k: int| ' ')
}

pub open spec fn literal_text(l: Literal) -> Seq<char> {
    match l {
        Literal::Integer(i) => signed_text(i as int),
        Literal::Str(s) => seq!['"'] + s@ + seq!['"'],
        Literal::Ident(s) => s@,
    }
}

pub open spec fn binary_text(k: BinaryExpressionKind) -> Seq<char> {
    match k {
        BinaryExpressionKind::Add => "+"@,
        BinaryExpressionKind::Sub => "-"@,
        BinaryExpressionKind::Mult => "*"@,
        BinaryExpressionKind::Div => "/"@,
        BinaryExpressionKind::Or => "or"@,
        BinaryExpressionKind::And => "and"@,
        BinaryExpressionKind::Equal => "=="@,
        BinaryExpressionKind::Less => "<"@,
        BinaryExpressionKind::LessEqual => "<="@,
        BinaryExpressionKind::GreaterEqual => ">="@,
        BinaryExpressionKind::Greater => ">"@,
        BinaryExpressionKind::Different => "!="@,
    }
}

pub open spec fn unary_text(k: UnaryExpressionKind) -> Seq<char> {
    match k {
        UnaryExpressionKind::Neg => "-"@,
        UnaryExpressionKind::Not => "not "@,
    }
}

/// The source form of an expression: every binary node in parentheses.
pub open spec fn expression_text(e: Expression) -> Seq<char>
    decreases e,
{
    match e.content {
        ExpressionEnum::Lit(l) => literal_text(l),
        ExpressionEnum::Una(k, x) => unary_text(k) + expression_text(*x),
        ExpressionEnum::Bin(k, l, r) => "("@ + expression_text(*l) + " "@ + binary_text(k) + " "@
            + expression_text(*r) + ")"@,
    }
}

/// The source form of a constant: its keyword unless it sits in a constant
/// block, then `= <expression>` or its entries one level deeper.
pub open spec fn constant_text(c: ConstantDeclaration, ctx: SerializationContext) -> Seq<char>
    decreases c,
{
    spaces(ctx.indent as nat) + (if ctx.emission_kind != EmissionKind::Const {
        "const "@
    } else {
        Seq::empty()
    }) + c.name@ + match c.body {
        ConstantBody::Direct(e) => " = "@ + expression_text(e),
        ConstantBody::Content(cs) => seq!['\n'] + constants_text(
            cs@,
            deeper(with_kind(ctx, EmissionKind::Const)),
        ),
    } + seq!['\n']
}

pub open spec fn constants_text(cs: Seq<ConstantDeclaration>, ctx: SerializationContext) -> Seq<
    char,
>
    decreases cs,
{
    if cs.len() == 0 {
        Seq::empty()
    } else {
        constant_text(cs[0], ctx) + constants_text(cs.drop_first(), ctx)
    }
}

/// The source form of an option: its keyword unless it sits in an option,
/// then its fields one level deeper.
pub open spec fn option_text(o: OptionDeclaration, ctx: SerializationContext) -> Seq<char>
    decreases o,
{
    spaces(ctx.indent as nat) + (if ctx.emission_kind != EmissionKind::Opt {
        "opt "@
    } else {
        Seq::empty()
    }) + o.name@ + seq!['\n'] + fields_text(o.fields@, with_kind(deeper(ctx), EmissionKind::Opt))
        + seq!['\n']
}

pub open spec fn field_text(f: OptionField, ctx: SerializationContext) -> Seq<char>
    decreases f,
{
    match f {
        OptionField::SubOption(o) => option_text(o, ctx),
        OptionField::Const(c) => constant_text(c, ctx),
        OptionField::Alt(a) => spaces(ctx.indent as nat) + "alt "@ + a.name@ + seq!['\n']
            + options_text(a.alternatives@, with_kind(deeper(ctx), EmissionKind::Opt)) + seq!['\n'],
    }
}

pub open spec fn fields_text(fs: Seq<OptionField>, ctx: SerializationContext) -> Seq<char>
    decreases fs,
{
    if fs.len() == 0 {
        Seq::empty()
    } else {
        field_text(fs[0], ctx) + fields_text(fs.drop_first(), ctx)
    }
}

pub open spec fn options_text(os: Seq<OptionDeclaration>, ctx: SerializationContext) -> Seq<char>
    decreases os,
{
    if os.len() == 0 {
        Seq::empty()
    } else {
        option_text(os[0], ctx) + options_text(os.drop_first(), ctx)
    }
}

/// The source form of an alternative: its options one level deeper.
pub open spec fn alternative_text(a: AlternativeDeclaration, ctx: SerializationContext) -> Seq<char> {
    spaces(ctx.indent as nat) + "alt "@ + a.name@ + seq!['\n'] + options_text(
        a.alternatives@,
        with_kind(deeper(ctx), EmissionKind::Opt),
    ) + seq!['\n']
}

/// The source form of a case: its symbol, its value if any, then its nested
/// cases one level deeper.
pub open spec fn choice_text(c: ChoiseDeclaration, ctx: SerializationContext) -> Seq<char>
    decreases c,
{
    c.symbol@ + match c.value {
        Some(e) => " = "@ + expression_text(e),
        None => Seq::empty(),
    } + seq!['\n'] + choices_text(c.fields@, deeper(ctx))
}

pub open spec fn choices_text(cs: Seq<ChoiseDeclaration>, ctx: SerializationContext) -> Seq<char>
    decreases cs,
{
    if cs.len() == 0 {
        Seq::empty()
    } else {
        choice_text(cs[0], ctx) + choices_text(cs.drop_first(), ctx)
    }
}

pub open spec fn declaration_text(d: Declaration, ctx: SerializationContext) -> Seq<char> {
    match d {
        Declaration::Opt(o) => option_text(o, ctx),
        Declaration::Const(c) => constant_text(c, ctx),
        Declaration::Alt(a) => alternative_text(a, ctx),
        Declaration::Choice(c) => choice_text(c, ctx),
    }
}

pub open spec fn declarations_text(ds: Seq<Declaration>, ctx: SerializationContext) -> Seq<char>
    decreases ds.len(),
{
    if ds.len() == 0 {
        Seq::empty()
    } else {
        declaration_text(ds[0], ctx) + declarations_text(ds.drop_first(), ctx)
    }
}

proof fn lemma_constants_text_push(s: Seq<ConstantDeclaration>, k: int, ctx: SerializationContext)
    requires
        0 <= k < s.len(),
    ensures
        constants_text(s.subrange(0, k + 1), ctx) == constants_text(s.subrange(0, k), ctx) + constant_text(s[k], ctx),
    decreases k,
{
    if k == 0 {
        assert(s.subrange(0, 1).drop_first() =~= Seq::<ConstantDeclaration>::empty());
        assert(s.subrange(0, 0) =~= Seq::<ConstantDeclaration>::empty());
    } else {
        lemma_constants_text_push(s.drop_first(), k - 1, ctx);
        assert(s.subrange(0, k + 1).drop_first() =~= s.drop_first().subrange(0, k));
        assert(s.subrange(0, k).drop_first() =~= s.drop_first().subrange(0, k - 1));
        assert(s.drop_first()[k - 1] == s[k]);
    }
}

proof fn lemma_fields_text_push(s: Seq<OptionField>, k: int, ctx: SerializationContext)
    requires
        0 <= k < s.len(),
    ensures
        fields_text(s.subrange(0, k + 1), ctx) == fields_text(s.subrange(0, k), ctx) + field_text(s[k], ctx),
    decreases k,
{
    if k == 0 {
        assert(s.subrange(0, 1).drop_first() =~= Seq::<OptionField>::empty());
        assert(s.subrange(0, 0) =~= Seq::<OptionField>::empty());
    } else {
        lemma_fields_text_push(s.drop_first(), k - 1, ctx);
        assert(s.subrange(0, k + 1).drop_first() =~= s.drop_first().subrange(0, k));
        assert(s.subrange(0, k).drop_first() =~= s.drop_first().subrange(0, k - 1));
        assert(s.drop_first()[k - 1] == s[k]);
    }
}

proof fn lemma_options_text_push(s: Seq<OptionDeclaration>, k: int, ctx: SerializationContext)
    requires
        0 <= k < s.len(),
    ensures
        options_text(s.subrange(0, k + 1), ctx) == options_text(s.subrange(0, k), ctx) + option_text(s[k], ctx),
    decreases k,
{
    if k == 0 {
        assert(s.subrange(0, 1).drop_first() =~= Seq::<OptionDeclaration>::empty());
        assert(s.subrange(0, 0) =~= Seq::<OptionDeclaration>::empty());
    } else {
        lemma_options_text_push(s.drop_first(), k - 1, ctx);
        assert(s.subrange(0, k + 1).drop_first() =~= s.drop_first().subrange(0, k));
        assert(s.subrange(0, k).drop_first() =~= s.drop_first().subrange(0, k - 1));
        assert(s.drop_first()[k - 1] == s[k]);
    }
}

proof fn lemma_choices_text_push(s: Seq<ChoiseDeclaration>, k: int, ctx: SerializationContext)
    requires
        0 <= k < s.len(),
    ensures
        choices_text(s.subrange(0, k + 1), ctx) == choices_text(s.subrange(0, k), ctx) + choice_text(s[k], ctx),
    decreases k,
{
    if k == 0 {
        assert(s.subrange(0, 1).drop_first() =~= Seq::<ChoiseDeclaration>::empty());
        assert(s.subrange(0, 0) =~= Seq::<ChoiseDeclaration>::empty());
    } else {
        lemma_choices_text_push(s.drop_first(), k - 1, ctx);
        assert(s.subrange(0, k + 1).drop_first() =~= s.drop_first().subrange(0, k));
        assert(s.subrange(0, k).drop_first() =~= s.drop_first().subrange(0, k - 1));
        assert(s.drop_first()[k - 1] == s[k]);
    }
}

proof fn lemma_declarations_text_push(s: Seq<Declaration>, k: int, ctx: SerializationContext)
    requires
        0 <= k < s.len(),
    ensures
        declarations_text(s.subrange(0, k + 1), ctx) == declarations_text(s.subrange(0, k), ctx) + declaration_text(s[k], ctx),
    decreases k,
{
    if k == 0 {
        assert(s.subrange(0, 1).drop_first() =~= Seq::<Declaration>::empty());
        assert(s.subrange(0, 0) =~= Seq::<Declaration>::empty());
    } else {
        lemma_declarations_text_push(s.drop_first(), k - 1, ctx);
        assert(s.subrange(0, k + 1).drop_first() =~= s.drop_first().subrange(0, k));
        assert(s.subrange(0, k).drop_first() =~= s.drop_first().subrange(0, k - 1));
        assert(s.drop_first()[k - 1] == s[k]);
    }
}

impl SerializationContext {
    pub open spec fn new_spec() -> SerializationContext {
        SerializationContext { indent: 0, emission_kind: EmissionKind::Non }
    }

    /// At the top level: no indentation, no enclosing form.
    pub fn new() -> (r: SerializationContext)
        ensures
            r == SerializationContext::new_spec(),
    {
        SerializationContext { indent: 0, emission_kind: EmissionKind::Non }
    }

    /// One level deeper; the depth stops growing at `usize::MAX`.
    pub fn indented(&self) -> (r: SerializationContext)
        ensures
            r == deeper(*self),
    {
        let indent = if self.indent < usize::MAX {
            self.indent + 1
        } else {
            self.indent
        };
        SerializationContext { indent, emission_kind: self.emission_kind }
    }

    pub fn emitting_option(&self) -> (r: SerializationContext)
        ensures
            r == with_kind(*self, EmissionKind::Opt),
    {
        SerializationContext { indent: self.indent, emission_kind: EmissionKind::Opt }
    }

    pub fn emitting_const(&self) -> (r: SerializationContext)
        ensures
            r == with_kind(*self, EmissionKind::Const),
    {
        SerializationContext { indent: self.indent, emission_kind: EmissionKind::Const }
    }
}

impl Literal {
    /// Appends the source form of the literal.
    pub fn serialize(&self, out: &mut String, ctx: &SerializationContext)
        ensures
            final(out)@ == old(out)@ + literal_text(*self),
    {
        match self {
            Literal::Integer(i) => push_signed(out, *i),
            Literal::Str(s) => {
                push_char(out, '"');
                push_text(out, s.as_str());
                push_char(out, '"');
                assert(out@ =~= old(out)@ + (seq!['"'] + s@ + seq!['"']));
            },
            Literal::Ident(s) => push_text(out, s.as_str()),
        }
    }
}

impl BinaryExpressionKind {
    /// Appends the operator.
    pub fn serialize(&self, out: &mut String, ctx: &SerializationContext)
        ensures
            final(out)@ == old(out)@ + binary_text(*self),
    {
        match self {
            BinaryExpressionKind::Add => push_text(out, "+"),
            BinaryExpressionKind::Sub => push_text(out, "-"),
            BinaryExpressionKind::Mult => push_text(out, "*"),
            BinaryExpressionKind::Div => push_text(out, "/"),
            BinaryExpressionKind::Or => push_text(out, "or"),
            BinaryExpressionKind::And => push_text(out, "and"),
            BinaryExpressionKind::Equal => push_text(out, "=="),
            BinaryExpressionKind::Less => push_text(out, "<"),
            BinaryExpressionKind::LessEqual => push_text(out, "<="),
            BinaryExpressionKind::GreaterEqual => push_text(out, ">="),
            BinaryExpressionKind::Greater => push_text(out, ">"),
            BinaryExpressionKind::Different => push_text(out, "!="),
        }
    }
}

impl UnaryExpressionKind {
    /// Appends the operator.
    pub fn serialize(&self, out: &mut String, ctx: &SerializationContext)
        ensures
            final(out)@ == old(out)@ + unary_text(*self),
    {
        match self {
            UnaryExpressionKind::Neg => push_text(out, "-"),
            UnaryExpressionKind::Not => push_text(out, "not "),
        }
    }
}

impl Expression {
    /// Appends the source form of the expression.
    pub fn serialize(&self, out: &mut String, ctx: &SerializationContext)
        ensures
            final(out)@ == old(out)@ + expression_text(*self),
        decreases self,
    {
        match &self.content {
            ExpressionEnum::Lit(l) => l.serialize(out, ctx),
            ExpressionEnum::Una(k, x) => {
                k.serialize(out, ctx);
                x.serialize(out, ctx);
                assert(out@ =~= old(out)@ + (unary_text(*k) + expression_text(**x)));
            },
            ExpressionEnum::Bin(k, l, r) => {
                push_text(out, "(");
                l.serialize(out, ctx);
                push_text(out, " ");
                k.serialize(out, ctx);
                push_text(out, " ");
                r.serialize(out, ctx);
                push_text(out, ")");
                assert(out@ =~= old(out)@ + ("("@ + expression_text(**l) + " "@ + binary_text(*k)
                    + " "@ + expression_text(**r) + ")"@));
            },
        }
    }
}

impl ConstantDeclaration {
    /// Appends the source form of the constant.
    pub fn serialize(&self, out: &mut String, ctx: &SerializationContext)
        ensures
            final(out)@ == old(out)@ + constant_text(*self, *ctx),
        decreases self,
    {
        let ghost start = out@;
        indent(out, ctx.indent);
        if ctx.emission_kind != EmissionKind::Const {
            push_text(out, "const ");
        }
        push_text(out, self.name.as_str());
        let ghost head = out@;
        let inner = ctx.emitting_const();
        assert(head =~= old(out)@ + spaces(ctx.indent as nat) + (if ctx.emission_kind
            != EmissionKind::Const {
            "const "@
        } else {
            Seq::empty()
        }) + self.name@);
        match &self.body {
            ConstantBody::Direct(e) => {
                push_text(out, " = ");
                e.serialize(out, &inner);
                assert(out@ =~= head + (" = "@ + expression_text(*e)));
            },
            ConstantBody::Content(cs) => {
                push_char(out, '\n');
                let child = inner.indented();
        let ghost before = out@;
        let mut k: usize = 0;
        while k < cs.len()
            invariant
                k <= cs@.len(),
                out@ == before + constants_text(cs@.subrange(0, k as int), child),
                self.body is Content && self.body->Content_0 == *cs,
            decreases cs@.len() - k,
        {
            cs[k].serialize(out, &child);
            proof {
                lemma_constants_text_push(cs@, k as int, child);
            }
            k = k + 1;
        }
        assert(cs@.subrange(0, cs@.len() as int) =~= cs@);
                assert(out@ =~= head + (seq!['\n'] + constants_text(cs@, child)));
            },
        }
        push_char(out, '\n');
        assert(out@ =~= old(out)@ + constant_text(*self, *ctx));
    }
}

impl OptionDeclaration {
    /// Appends the source form of the option.
    pub fn serialize(&self, out: &mut String, ctx: &SerializationContext)
        ensures
            final(out)@ == old(out)@ + option_text(*self, *ctx),
        decreases self,
    {
        indent(out, ctx.indent);
        if ctx.emission_kind != EmissionKind::Opt {
            push_text(out, "opt ");
        }
        push_text(out, self.name.as_str());
        push_char(out, '\n');
        let child = ctx.indented().emitting_option();
        let fields = &self.fields;
        let ghost before = out@;
        let mut k: usize = 0;
        while k < fields.len()
            invariant
                k <= fields@.len(),
                out@ == before + fields_text(fields@.subrange(0, k as int), child),
                *fields == self.fields,
            decreases fields@.len() - k,
        {
            fields[k].serialize(out, &child);
            proof {
                lemma_fields_text_push(fields@, k as int, child);
            }
            k = k + 1;
        }
        assert(fields@.subrange(0, fields@.len() as int) =~= fields@);
        push_char(out, '\n');
        assert(out@ =~= old(out)@ + option_text(*self, *ctx));
    }
}

impl OptionField {
    /// Appends the source form of the field.
    pub fn serialize(&self, out: &mut String, ctx: &SerializationContext)
        ensures
            final(out)@ == old(out)@ + field_text(*self, *ctx),
        decreases self,
    {
        match self {
            OptionField::SubOption(o) => o.serialize(out, ctx),
            OptionField::Const(c) => c.serialize(out, ctx),
            OptionField::Alt(a) => {
                indent(out, ctx.indent);
                push_text(out, "alt ");
                push_text(out, a.name.as_str());
                push_char(out, '\n');
                let child = ctx.indented().emitting_option();
                let alternatives = &a.alternatives;
        let ghost before = out@;
        let mut k: usize = 0;
        while k < alternatives.len()
            invariant
                k <= alternatives@.len(),
                out@ == before + options_text(alternatives@.subrange(0, k as int), child),
                self is Alt && *alternatives == self->Alt_0.alternatives,
            decreases alternatives@.len() - k,
        {
            alternatives[k].serialize(out, &child);
            proof {
                lemma_options_text_push(alternatives@, k as int, child);
            }
            k = k + 1;
        }
        assert(alternatives@.subrange(0, alternatives@.len() as int) =~= alternatives@);
                push_char(out, '\n');
                assert(out@ =~= old(out)@ + field_text(*self, *ctx));
            },
        }
    }
}

impl AlternativeDeclaration {
    /// Appends the source form of the alternative.
    pub fn serialize(&self, out: &mut String, ctx: &SerializationContext)
        ensures
            final(out)@ == old(out)@ + alternative_text(*self, *ctx),
    {
        indent(out, ctx.indent);
        push_text(out, "alt ");
        push_text(out, self.name.as_str());
        push_char(out, '\n');
        let child = ctx.indented().emitting_option();
        let alternatives = &self.alternatives;
        let ghost before = out@;
        let mut k: usize = 0;
        while k < alternatives.len()
            invariant
                k <= alternatives@.len(),
                out@ == before + options_text(alternatives@.subrange(0, k as int), child),
            decreases alternatives@.len() - k,
        {
            alternatives[k].serialize(out, &child);
            proof {
                lemma_options_text_push(alternatives@, k as int, child);
            }
            k = k + 1;
        }
        assert(alternatives@.subrange(0, alternatives@.len() as int) =~= alternatives@);
        push_char(out, '\n');
        assert(out@ =~= old(out)@ + alternative_text(*self, *ctx));
    }
}

impl ChoiseDeclaration {
    /// Appends the source form of the case.
    pub fn serialize(&self, out: &mut String, ctx: &SerializationContext)
        ensures
            final(out)@ == old(out)@ + choice_text(*self, *ctx),
        decreases self,
    {
        push_text(out, self.symbol.as_str());
        match &self.value {
            Some(e) => {
                push_text(out, " = ");
                e.serialize(out, ctx);
            },
            None => {},
        }
        push_char(out, '\n');
        let child = ctx.indented();
        let fields = &self.fields;
        let ghost before = out@;
        let mut k: usize = 0;
        while k < fields.len()
            invariant
                k <= fields@.len(),
                out@ == before + choices_text(fields@.subrange(0, k as int), child),
                *fields == self.fields,
            decreases fields@.len() - k,
        {
            fields[k].serialize(out, &child);
            proof {
                lemma_choices_text_push(fields@, k as int, child);
            }
            k = k + 1;
        }
        assert(fields@.subrange(0, fields@.len() as int) =~= fields@);
        assert(out@ =~= old(out)@ + choice_text(*self, *ctx));
    }
}

impl Declaration {
    /// Appends the source form of the declaration.
    pub fn serialize(&self, out: &mut String, ctx: &SerializationContext)
        ensures
            final(out)@ == old(out)@ + declaration_text(*self, *ctx),
    {
        match self {
            Declaration::Opt(d) => d.serialize(out, ctx),
            Declaration::Const(d) => d.serialize(out, ctx),
            Declaration::Alt(d) => d.serialize(out, ctx),
            Declaration::Choice(d) => d.serialize(out, ctx),
        }
    }
}

impl Document {
    /// Appends the source form of every declaration, in order.
    pub fn serialize(&self, out: &mut String, ctx: &SerializationContext)
        ensures
            final(out)@ == old(out)@ + declarations_text(self.entries@, *ctx),
    {
        let entries = &self.entries;
        let child = *ctx;
        let ghost before = out@;
        let mut k: usize = 0;
        while k < entries.len()
            invariant
                k <= entries@.len(),
                out@ == before + declarations_text(entries@.subrange(0, k as int), child),
            decreases entries@.len() - k,
        {
            entries[k].serialize(out, &child);
            proof {
                lemma_declarations_text_push(entries@, k as int, child);
            }
            k = k + 1;
        }
        assert(entries@.subrange(0, entries@.len() as int) =~= entries@);
    }

    /// The source form of the document.
    pub fn to_source(&self) -> (r: String)
        ensures
            r@ == declarations_text(self.entries@, SerializationContext::new_spec()),
    {
        let mut out = String::new();
        self.serialize(&mut out, &SerializationContext::new());
        out
    }
}

} // verus!
