//! Filters: the schema, the filter row, typed literals, and the expressions
//! a query runs under.
//!
//! Every literal is written in the notation its column expects: a whole
//! number as a number, a boolean as a boolean, a float as the digits typed, a
//! decimal as text so no precision is lost, a date as `YYYY-MM-DD`, a
//! timestamp as ISO-8601 with `Z`. An entry a column cannot accept is not
//! sent: it comes back as a problem the grid can name, instead of a
//! validation error the reader did not cause.

use vstd::prelude::*;

use crate::grouping::{copy_key, Key, KeyV};
use crate::text::{chars_of, is_digit, parse_i64, parse_i64_spec, same_text, trim, trimmed};

verus! {

/// The longest a column name may be.
pub const MAX_NAME_LEN: usize = 63;

/// The type of a column.
#[derive(Clone, Copy, Debug, PartialEq, Eq, Structural)]
pub enum DataType {
    Utf8,
    Bool,
    Int64,
    Float64,
    Decimal { precision: u8, scale: u8 },
    Date,
    Timestamp,
}

/// A column of a schema.
#[derive(Debug, PartialEq, Eq)]
pub struct Field {
    pub name: String,
    pub data_type: DataType,
    pub nullable: bool,
}

/// A column as a value.
pub struct FieldV {
    pub name: Seq<char>,
    pub data_type: DataType,
    pub nullable: bool,
}

impl View for Field {
    type V = FieldV;

    open spec fn view(&self) -> FieldV {
        FieldV { name: self.name@, data_type: self.data_type, nullable: self.nullable }
    }
}

impl Field {
    /// A column that may hold NULL.
    pub fn new(name: String, data_type: DataType) -> (f: Field)
        ensures
            f@ == (FieldV { name: name@, data_type, nullable: true }),
    {
        Field { name, data_type, nullable: true }
    }

    /// A column that never holds NULL.
    pub fn required(name: String, data_type: DataType) -> (f: Field)
        ensures
            f@ == (FieldV { name: name@, data_type, nullable: false }),
    {
        Field { name, data_type, nullable: false }
    }
}

/// The columns of a result, in order.
#[derive(Debug, PartialEq, Eq)]
pub struct Schema {
    pub fields: Vec<Field>,
}

/// The values of some columns.
pub open spec fn fields_view(fields: Seq<Field>) -> Seq<FieldV> {
    fields.map_values(|f: Field| f@)
}

/// The first column called `name`.
pub open spec fn lookup(fields: Seq<FieldV>, name: Seq<char>) -> Option<FieldV>
    decreases fields.len(),
{
    if fields.len() == 0 {
        None
    } else if fields[0].name == name {
        Some(fields[0])
    } else {
        lookup(fields.drop_first(), name)
    }
}

impl View for Schema {
    type V = Seq<FieldV>;

    open spec fn view(&self) -> Seq<FieldV> {
        fields_view(self.fields@)
    }
}

impl Schema {
    pub fn new(fields: Vec<Field>) -> (s: Schema)
        ensures
            s@ == fields_view(fields@),
    {
        Schema { fields }
    }

    /// The first column called `name`.
    pub fn field(&self, name: &str) -> (f: Option<&Field>)
        ensures
            match f {
                Some(x) => lookup(self@, name@) == Some(x@),
                None => lookup(self@, name@) is None,
            },
    {
        let ghost all = self@;
        let mut i: usize = 0;
        proof {
            assert(all.skip(0) =~= all);
        }
        while i < self.fields.len()
            invariant
                i <= self.fields@.len(),
                all == self@,
                lookup(all, name@) == lookup(all.skip(i as int), name@),
            decreases self.fields.len() - i,
        {
            let ghost rest = all.skip(i as int);
            proof {
                assert(rest[0] == self.fields@[i as int]@);
                assert(rest.drop_first() =~= all.skip(i + 1));
            }
            if same_text(self.fields[i].name.as_str(), name) {
                return Some(&self.fields[i]);
            }
            i = i + 1;
        }
        None
    }
}

/// A character a name may start with.
pub open spec fn name_start(c: char) -> bool {
    ('A' <= c && c <= 'Z') || ('a' <= c && c <= 'z') || c == '_'
}

/// A character a name may go on with.
pub open spec fn name_char(c: char) -> bool {
    name_start(c) || is_digit(c)
}

/// A valid column name: a letter or `_`, then letters, digits and `_`, at
/// most [`MAX_NAME_LEN`] characters — what a query may name.
pub open spec fn valid_name(s: Seq<char>) -> bool {
    &&& 1 <= s.len() <= MAX_NAME_LEN
    &&& name_start(s[0])
    &&& forall|i: int| 1 <= i < s.len() ==> name_char(#[trigger] s[i])
}

/// Whether `name` is a valid column name.
pub fn is_valid_name(name: &str) -> (b: bool)
    ensures
        b == valid_name(name@),
{
    let n = name.unicode_len();
    if n == 0 || n > MAX_NAME_LEN {
        return false;
    }
    let c = name.get_char(0);
    if !(('A' <= c && c <= 'Z') || ('a' <= c && c <= 'z') || c == '_') {
        return false;
    }
    let mut i: usize = 1;
    while i < n
        invariant
            n == name@.len(),
            1 <= i <= n,
            forall|j: int| 1 <= j < i ==> name_char(#[trigger] name@[j]),
        decreases n - i,
    {
        let c = name.get_char(i);
        if !(('A' <= c && c <= 'Z') || ('a' <= c && c <= 'z') || c == '_' || ('0' <= c && c
            <= '9')) {
            return false;
        }
        i = i + 1;
    }
    true
}

/// A comparison of the query model.
#[derive(Clone, Copy, Debug, PartialEq, Eq, Structural)]
pub enum CmpOp {
    Eq,
    Ne,
    Gt,
    Gte,
    Lt,
    Lte,
    Contains,
    StartsWith,
}

impl CmpOp {
    /// The wire token.
    pub open spec fn name(self) -> Seq<char> {
        match self {
            CmpOp::Eq => "eq"@,
            CmpOp::Ne => "ne"@,
            CmpOp::Gt => "gt"@,
            CmpOp::Gte => "gte"@,
            CmpOp::Lt => "lt"@,
            CmpOp::Lte => "lte"@,
            CmpOp::Contains => "contains"@,
            CmpOp::StartsWith => "starts_with"@,
        }
    }

    /// The comparison a wire token names.
    pub open spec fn parse_spec(token: Seq<char>) -> Option<CmpOp> {
        if token == "eq"@ {
            Some(CmpOp::Eq)
        } else if token == "ne"@ {
            Some(CmpOp::Ne)
        } else if token == "gt"@ {
            Some(CmpOp::Gt)
        } else if token == "gte"@ {
            Some(CmpOp::Gte)
        } else if token == "lt"@ {
            Some(CmpOp::Lt)
        } else if token == "lte"@ {
            Some(CmpOp::Lte)
        } else if token == "contains"@ {
            Some(CmpOp::Contains)
        } else if token == "starts_with"@ {
            Some(CmpOp::StartsWith)
        } else {
            None
        }
    }

    /// The wire token.
    pub fn as_str(&self) -> (s: &'static str)
        ensures
            s@ == self.name(),
    {
        match self {
            CmpOp::Eq => "eq",
            CmpOp::Ne => "ne",
            CmpOp::Gt => "gt",
            CmpOp::Gte => "gte",
            CmpOp::Lt => "lt",
            CmpOp::Lte => "lte",
            CmpOp::Contains => "contains",
            CmpOp::StartsWith => "starts_with",
        }
    }

    /// Reads a wire token.
    pub fn parse(token: &str) -> (op: Option<CmpOp>)
        ensures
            op == CmpOp::parse_spec(token@),
    {
        if same_text(token, "eq") {
            Some(CmpOp::Eq)
        } else if same_text(token, "ne") {
            Some(CmpOp::Ne)
        } else if same_text(token, "gt") {
            Some(CmpOp::Gt)
        } else if same_text(token, "gte") {
            Some(CmpOp::Gte)
        } else if same_text(token, "lt") {
            Some(CmpOp::Lt)
        } else if same_text(token, "lte") {
            Some(CmpOp::Lte)
        } else if same_text(token, "contains") {
            Some(CmpOp::Contains)
        } else if same_text(token, "starts_with") {
            Some(CmpOp::StartsWith)
        } else {
            None
        }
    }
}

/// What the operator control of the filter row can be set to: a comparison,
/// or one of the two null tests, which are filters of their own.
#[derive(Clone, Copy, Debug, PartialEq, Eq, Structural)]
pub enum FilterOp {
    Cmp(CmpOp),
    IsNull,
    IsNotNull,
}

impl FilterOp {
    /// The wire token.
    pub open spec fn name(self) -> Seq<char> {
        match self {
            FilterOp::Cmp(op) => op.name(),
            FilterOp::IsNull => "is_null"@,
            FilterOp::IsNotNull => "is_not_null"@,
        }
    }

    /// The choice a wire token names.
    pub open spec fn parse_spec(token: Seq<char>) -> Option<FilterOp> {
        if token == "is_null"@ {
            Some(FilterOp::IsNull)
        } else if token == "is_not_null"@ {
            Some(FilterOp::IsNotNull)
        } else {
            match CmpOp::parse_spec(token) {
                Some(op) => Some(FilterOp::Cmp(op)),
                None => None,
            }
        }
    }

    /// Reads a wire token, including the two null tests.
    pub fn parse(token: &str) -> (op: Option<FilterOp>)
        ensures
            op == FilterOp::parse_spec(token@),
    {
        if same_text(token, "is_null") {
            Some(FilterOp::IsNull)
        } else if same_text(token, "is_not_null") {
            Some(FilterOp::IsNotNull)
        } else {
            match CmpOp::parse(token) {
                Some(op) => Some(FilterOp::Cmp(op)),
                None => None,
            }
        }
    }

    /// The wire token.
    pub fn as_str(&self) -> (s: &'static str)
        ensures
            s@ == self.name(),
    {
        match self {
            FilterOp::Cmp(op) => op.as_str(),
            FilterOp::IsNull => "is_null",
            FilterOp::IsNotNull => "is_not_null",
        }
    }
}

/// Every choice reads back from its own token.
pub proof fn lemma_filter_op_round_trip(op: FilterOp)
    ensures
        FilterOp::parse_spec(op.name()) == Some(op),
{
    reveal_strlit("eq");
    reveal_strlit("ne");
    reveal_strlit("gt");
    reveal_strlit("gte");
    reveal_strlit("lt");
    reveal_strlit("lte");
    reveal_strlit("contains");
    reveal_strlit("starts_with");
    reveal_strlit("is_null");
    reveal_strlit("is_not_null");
    assert("eq"@.len() == 2);
    assert("ne"@.len() == 2);
    assert("gt"@.len() == 2);
    assert("gte"@.len() == 3);
    assert("lt"@.len() == 2);
    assert("lte"@.len() == 3);
    assert("contains"@.len() == 8);
    assert("starts_with"@.len() == 11);
    assert("is_null"@.len() == 7);
    assert("is_not_null"@.len() == 11);
    assert("eq"@[0] == 'e');
    assert("ne"@[0] == 'n');
    assert("gt"@[0] == 'g');
    assert("gte"@[0] == 'g');
    assert("lt"@[0] == 'l');
    assert("lte"@[0] == 'l');
    assert("contains"@[0] == 'c');
    assert("starts_with"@[0] == 's');
    assert("is_null"@[0] == 'i');
    assert("is_not_null"@[0] == 'i');
    match op {
        FilterOp::Cmp(c) => {
            assert(op.name() != "is_null"@);
            assert(op.name() != "is_not_null"@);
            match c {
                CmpOp::Eq => {},
                CmpOp::Ne => {},
                CmpOp::Gt => {},
                CmpOp::Gte => {},
                CmpOp::Lt => {},
                CmpOp::Lte => {},
                CmpOp::Contains => {},
                CmpOp::StartsWith => {},
            }
        },
        FilterOp::IsNull => {},
        FilterOp::IsNotNull => {
            assert("is_not_null"@ != "is_null"@);
        },
    }
}

/// Whether an operator needs a value at all: the null tests do not.
pub open spec fn takes_value_spec(op: Seq<char>) -> bool {
    op != "is_null"@ && op != "is_not_null"@
}

/// Whether an operator needs a value at all.
pub fn takes_value(op: &str) -> (b: bool)
    ensures
        b == takes_value_spec(op@),
{
    !(same_text(op, "is_null") || same_text(op, "is_not_null"))
}

/// A filter expression of the query model. A literal is a wire value.
#[derive(Debug, PartialEq, Eq)]
pub enum FilterExpr {
    Cmp { field: String, op: CmpOp, value: Key },
    IsNull { field: String },
    IsNotNull { field: String },
    And(Vec<FilterExpr>),
    Or(Vec<FilterExpr>),
}

/// A filter expression as a value.
pub enum FilterExprView {
    Cmp { field: Seq<char>, op: CmpOp, value: KeyV },
    IsNull { field: Seq<char> },
    IsNotNull { field: Seq<char> },
    And(Seq<FilterExprView>),
    Or(Seq<FilterExprView>),
}

/// The value of a filter expression.
pub open spec fn expr_view(e: FilterExpr) -> FilterExprView
    decreases e,
{
    match e {
        FilterExpr::Cmp { field, op, value } => FilterExprView::Cmp {
            field: field@,
            op,
            value: value@,
        },
        FilterExpr::IsNull { field } => FilterExprView::IsNull { field: field@ },
        FilterExpr::IsNotNull { field } => FilterExprView::IsNotNull { field: field@ },
        FilterExpr::And(parts) => FilterExprView::And(
            Seq::new(
                parts@.len(),
                |i: int|
                    if 0 <= i < parts@.len() {
                        expr_view(parts@[i])
                    } else {
                        FilterExprView::And(Seq::empty())
                    },
            ),
        ),
        FilterExpr::Or(parts) => FilterExprView::Or(
            Seq::new(
                parts@.len(),
                |i: int|
                    if 0 <= i < parts@.len() {
                        expr_view(parts@[i])
                    } else {
                        FilterExprView::Or(Seq::empty())
                    },
            ),
        ),
    }
}

/// The values of some filter expressions.
pub open spec fn exprs_view(s: Seq<FilterExpr>) -> Seq<FilterExprView> {
    s.map_values(|e: FilterExpr| expr_view(e))
}

/// The conjunction of some expressions, as a value.
pub proof fn lemma_and_view(parts: Vec<FilterExpr>)
    ensures
        expr_view(FilterExpr::And(parts)) == FilterExprView::And(exprs_view(parts@)),
        expr_view(FilterExpr::Or(parts)) == FilterExprView::Or(exprs_view(parts@)),
{
    if let FilterExprView::And(s) = expr_view(FilterExpr::And(parts)) {
        assert(s =~= exprs_view(parts@));
    }
    if let FilterExprView::Or(s) = expr_view(FilterExpr::Or(parts)) {
        assert(s =~= exprs_view(parts@));
    }
}

/// A copy of a filter expression.
pub fn copy_expr(e: &FilterExpr) -> (r: FilterExpr)
    ensures
        expr_view(r) == expr_view(*e),
    decreases e,
{
    match e {
        FilterExpr::Cmp { field, op, value } => FilterExpr::Cmp {
            field: field.clone(),
            op: *op,
            value: copy_key(value),
        },
        FilterExpr::IsNull { field } => FilterExpr::IsNull { field: field.clone() },
        FilterExpr::IsNotNull { field } => FilterExpr::IsNotNull { field: field.clone() },
        FilterExpr::And(parts) => {
            let out = copy_parts(parts);
            proof {
                lemma_and_view(out);
                lemma_and_view(*parts);
            }
            FilterExpr::And(out)
        },
        FilterExpr::Or(parts) => {
            let out = copy_parts(parts);
            proof {
                lemma_and_view(out);
                lemma_and_view(*parts);
            }
            FilterExpr::Or(out)
        },
    }
}

/// A copy of the parts of an expression.
fn copy_parts(parts: &Vec<FilterExpr>) -> (out: Vec<FilterExpr>)
    ensures
        exprs_view(out@) == exprs_view(parts@),
    decreases parts,
{
    let mut out: Vec<FilterExpr> = Vec::new();
    let mut i: usize = 0;
    while i < parts.len()
        invariant
            i <= parts@.len(),
            exprs_view(out@) == exprs_view(parts@).take(i as int),
        decreases parts.len() - i,
    {
        proof {
            assert(decreases_to!(parts => parts@[i as int]));
        }
        let c = copy_expr(&parts[i]);
        let ghost before = exprs_view(out@);
        out.push(c);
        proof {
            assert(expr_view(c) == expr_view(parts@[i as int]));
            assert(exprs_view(out@) =~= before.push(expr_view(c)));
            assert(exprs_view(out@) =~= exprs_view(parts@).take(i + 1));
        }
        i = i + 1;
    }
    proof {
        assert(exprs_view(parts@).take(i as int) =~= exprs_view(parts@));
    }
    out
}

/// The width of a character in UTF-8.
pub open spec fn char_width(c: char) -> nat {
    if (c as u32) < 0x80 {
        1
    } else if (c as u32) < 0x800 {
        2
    } else if (c as u32) < 0x10000 {
        3
    } else {
        4
    }
}

/// The length of a text in UTF-8 bytes, as `str::len` counts it.
pub open spec fn utf8_len(s: Seq<char>) -> nat
    decreases s.len(),
{
    if s.len() == 0 {
        0
    } else {
        utf8_len(s.drop_last()) + char_width(s.last())
    }
}

proof fn lemma_utf8_len_prefix(s: Seq<char>, i: int)
    requires
        0 <= i <= s.len(),
    ensures
        utf8_len(s.take(i)) <= utf8_len(s),
    decreases s.len(),
{
    if i < s.len() {
        lemma_utf8_len_prefix(s.drop_last(), i);
        assert(s.drop_last().take(i) =~= s.take(i));
    } else {
        assert(s.take(i) =~= s);
    }
}

/// Where the digits of a number start: after one leading sign, if any.
pub open spec fn after_sign(t: Seq<char>, a: int) -> int {
    if a < t.len() && (t[a] == '+' || t[a] == '-') {
        a + 1
    } else {
        a
    }
}

/// `t[a..b]` is digits with at most one `.` among them, and at least one
/// digit: `12`, `1.5`, `1.`, `.5`.
pub open spec fn mantissa_in(t: Seq<char>, a: int, b: int) -> bool {
    &&& forall|i: int| a <= i < b ==> is_digit(#[trigger] t[i]) || t[i] == '.'
    &&& forall|i: int, j: int| a <= i < j < b && #[trigger] t[i] == '.' ==> #[trigger] t[j] != '.'
    &&& exists|i: int| a <= i < b && is_digit(#[trigger] t[i])
}

/// `t[a..b]` is an exponent's number: a sign, if any, then digits.
pub open spec fn exponent_in(t: Seq<char>, a: int, b: int) -> bool {
    let c = if a < b && (t[a] == '+' || t[a] == '-') {
        a + 1
    } else {
        a
    };
    c < b && forall|i: int| c <= i < b ==> is_digit(#[trigger] t[i])
}

/// An exponent mark.
pub open spec fn is_e(c: char) -> bool {
    c == 'e' || c == 'E'
}

/// A finite float as `f64`'s `FromStr` reads one: a sign, if any, a
/// mantissa, and an exponent, if any.
pub open spec fn float_shape(t: Seq<char>) -> bool {
    let a = after_sign(t, 0);
    ||| mantissa_in(t, a, t.len() as int)
    ||| exists|k: int|
        a <= k < t.len() && is_e(#[trigger] t[k]) && mantissa_in(t, a, k) && exponent_in(
            t,
            k + 1,
            t.len() as int,
        )
}

/// A decimal: a sign, if any, whole digits, and a fraction of digits after
/// a `.`, if any.
pub open spec fn decimal_shape(t: Seq<char>) -> bool {
    let a = after_sign(t, 0);
    a < t.len() && is_digit(t[a]) && mantissa_in(t, a, t.len() as int)
}

/// `YYYY-MM-DD`.
pub open spec fn date_shape(t: Seq<char>) -> bool {
    &&& t.len() == 10
    &&& forall|i: int|
        0 <= i < 10 ==> if i == 4 || i == 7 {
            #[trigger] t[i] == '-'
        } else {
            is_digit(t[i])
        }
}

/// An ISO-8601 timestamp in UTC: at least 20 bytes, a `T`, and a final `Z`.
pub open spec fn timestamp_shape(t: Seq<char>) -> bool {
    &&& utf8_len(t) >= 20
    &&& t.len() > 0
    &&& t.last() == 'Z'
    &&& t.contains('T')
}

/// The boolean a word names: `true`, `on`, `1`, or `false`, `off`, `0` and
/// nothing at all.
pub open spec fn bool_word(t: Seq<char>) -> Option<bool> {
    if t == "true"@ || t == "on"@ || t == "1"@ {
        Some(true)
    } else if t == "false"@ || t == "off"@ || t == "0"@ || t.len() == 0 {
        Some(false)
    } else {
        None
    }
}

/// One typed literal in the notation its column expects, or `None` when the
/// text, white space around it dropped, is not a value of that type.
pub open spec fn literal_spec(text: Seq<char>, data_type: DataType) -> Option<KeyV> {
    let t = trim(text);
    match data_type {
        DataType::Utf8 => Some(KeyV::Text(t)),
        DataType::Bool => match bool_word(t) {
            Some(b) => Some(KeyV::Bool(b)),
            None => None,
        },
        DataType::Int64 => match parse_i64_spec(t) {
            Some(i) => Some(KeyV::Int(i)),
            None => None,
        },
        DataType::Float64 => if t == "NaN"@ || t == "Infinity"@ || t == "-Infinity"@ {
            Some(KeyV::Text(t))
        } else if float_shape(t) {
            Some(KeyV::Number(t))
        } else {
            None
        },
        DataType::Decimal { .. } => if decimal_shape(t) {
            Some(KeyV::Text(t))
        } else {
            None
        },
        DataType::Date => if date_shape(t) {
            Some(KeyV::Text(t))
        } else {
            None
        },
        DataType::Timestamp => if timestamp_shape(t) {
            Some(KeyV::Text(t))
        } else {
            None
        },
    }
}

fn is_digit_char(c: char) -> (b: bool)
    ensures
        b == is_digit(c),
{
    '0' <= c && c <= '9'
}

/// Where the digits of `v[a..]` start.
fn skip_sign(v: &Vec<char>, a: usize) -> (c: usize)
    requires
        a <= v@.len(),
    ensures
        c == after_sign(v@, a as int),
{
    if a < v.len() && (v[a] == '+' || v[a] == '-') {
        a + 1
    } else {
        a
    }
}

/// Whether `v[a..b]` is a mantissa.
fn mantissa_ok(v: &Vec<char>, a: usize, b: usize) -> (ok: bool)
    requires
        a <= b <= v@.len(),
    ensures
        ok == mantissa_in(v@, a as int, b as int),
{
    let mut seen_dot = false;
    let mut seen_digit = false;
    let mut k: usize = a;
    while k < b
        invariant
            a <= k <= b <= v@.len(),
            forall|i: int| a <= i < k ==> is_digit(#[trigger] v@[i]) || v@[i] == '.',
            forall|i: int, j: int| a <= i < j < k && #[trigger] v@[i] == '.' ==> #[trigger] v@[j] != '.',
            seen_dot == (exists|i: int| a <= i < k && #[trigger] v@[i] == '.'),
            seen_digit == (exists|i: int| a <= i < k && is_digit(#[trigger] v@[i])),
        decreases b - k,
    {
        let c = v[k];
        if c == '.' {
            if seen_dot {
                proof {
                    let i = choose|i: int| a <= i < k && #[trigger] v@[i] == '.';
                    assert(v@[k as int] == '.');
                }
                return false;
            }
            seen_dot = true;
        } else if is_digit_char(c) {
            seen_digit = true;
        } else {
            proof {
                assert(!(is_digit(v@[k as int]) || v@[k as int] == '.'));
            }
            return false;
        }
        k = k + 1;
    }
    seen_digit
}

/// Whether `v[a..b]` is an exponent's number.
fn exponent_ok(v: &Vec<char>, a: usize, b: usize) -> (ok: bool)
    requires
        a <= b <= v@.len(),
    ensures
        ok == exponent_in(v@, a as int, b as int),
{
    let c: usize = if a < b && (v[a] == '+' || v[a] == '-') {
        a + 1
    } else {
        a
    };
    if c >= b {
        return false;
    }
    let mut k: usize = c;
    while k < b
        invariant
            c <= k <= b <= v@.len(),
            a <= b,
            c == (if a < b && (v@[a as int] == '+' || v@[a as int] == '-') {
                a + 1
            } else {
                a as int
            }),
            forall|i: int| c <= i < k ==> is_digit(#[trigger] v@[i]),
        decreases b - k,
    {
        if !is_digit_char(v[k]) {
            proof {
                assert(!is_digit(v@[k as int]));
            }
            return false;
        }
        k = k + 1;
    }
    true
}

/// Whether `t` is a finite float's digits.
fn float_ok(t: &str) -> (ok: bool)
    ensures
        ok == float_shape(t@),
{
    let v = chars_of(t);
    let n = v.len();
    let a = skip_sign(&v, 0);
    let mut k: usize = a;
    while k < n
        invariant
            n == v@.len(),
            v@ == t@,
            a == after_sign(v@, 0),
            a <= k <= n,
            forall|i: int| a <= i < k ==> !is_e(#[trigger] v@[i]),
        ensures
            a <= k <= n,
            forall|i: int| a <= i < k ==> !is_e(#[trigger] v@[i]),
            k < n ==> is_e(v@[k as int]),
        decreases n - k,
    {
        if v[k] == 'e' || v[k] == 'E' {
            break;
        }
        k = k + 1;
    }
    if k == n {
        let ok = mantissa_ok(&v, a, n);
        proof {
            if exists|j: int|
                a <= j < n && is_e(#[trigger] v@[j]) && mantissa_in(v@, a as int, j) && exponent_in(
                    v@,
                    j + 1,
                    n as int,
                ) {
                let j = choose|j: int|
                    a <= j < n && is_e(#[trigger] v@[j]) && mantissa_in(v@, a as int, j) && exponent_in(
                        v@,
                        j + 1,
                        n as int,
                    );
                assert(!is_e(v@[j]));
            }
        }
        ok
    } else {
        let ok = mantissa_ok(&v, a, k) && exponent_ok(&v, k + 1, n);
        proof {
            // An `e` is neither a digit nor a `.`, so the whole text is no
            // mantissa, and the first `e` is the only place an exponent
            // can start.
            assert(!(is_digit(v@[k as int]) || v@[k as int] == '.'));
            if exists|j: int|
                a <= j < n && is_e(#[trigger] v@[j]) && mantissa_in(v@, a as int, j) && exponent_in(
                    v@,
                    j + 1,
                    n as int,
                ) {
                let j = choose|j: int|
                    a <= j < n && is_e(#[trigger] v@[j]) && mantissa_in(v@, a as int, j) && exponent_in(
                        v@,
                        j + 1,
                        n as int,
                    );
                if j > k {
                    assert(!(is_digit(v@[k as int]) || v@[k as int] == '.'));
                }
                assert(j == k);
            }
            if ok {
                assert(is_e(v@[k as int]));
            }
        }
        ok
    }
}

/// Whether `t` is a decimal's digits.
fn decimal_ok(t: &str) -> (ok: bool)
    ensures
        ok == decimal_shape(t@),
{
    let v = chars_of(t);
    let a = skip_sign(&v, 0);
    a < v.len() && is_digit_char(v[a]) && mantissa_ok(&v, a, v.len())
}

/// Whether `t` is `YYYY-MM-DD`.
fn date_ok(t: &str) -> (ok: bool)
    ensures
        ok == date_shape(t@),
{
    let v = chars_of(t);
    if v.len() != 10 {
        return false;
    }
    let mut i: usize = 0;
    while i < 10
        invariant
            v@ == t@,
            v@.len() == 10,
            i <= 10,
            forall|j: int|
                0 <= j < i ==> if j == 4 || j == 7 {
                    #[trigger] v@[j] == '-'
                } else {
                    is_digit(v@[j])
                },
        decreases 10 - i,
    {
        if i == 4 || i == 7 {
            if v[i] != '-' {
                return false;
            }
        } else if !is_digit_char(v[i]) {
            return false;
        }
        i = i + 1;
    }
    true
}

/// The width of `c` in UTF-8.
fn char_width_of(c: char) -> (w: usize)
    ensures
        w == char_width(c),
{
    let u = c as u32;
    if u < 0x80 {
        1
    } else if u < 0x800 {
        2
    } else if u < 0x10000 {
        3
    } else {
        4
    }
}

/// Whether `t` is a UTC timestamp.
fn timestamp_ok(t: &str) -> (ok: bool)
    ensures
        ok == timestamp_shape(t@),
{
    let v = chars_of(t);
    let n = v.len();
    let mut bytes: usize = 0;
    let mut i: usize = 0;
    while i < n && bytes < 20
        invariant
            n == v@.len(),
            v@ == t@,
            i <= n,
            bytes == utf8_len(v@.take(i as int)),
        decreases n - i,
    {
        proof {
            assert(v@.take(i + 1).drop_last() =~= v@.take(i as int));
        }
        bytes = bytes + char_width_of(v[i]);
        i = i + 1;
    }
    proof {
        lemma_utf8_len_prefix(v@, i as int);
        if i == n {
            assert(v@.take(n as int) =~= v@);
        }
    }
    if bytes < 20 || n == 0 || v[n - 1] != 'Z' {
        return false;
    }
    let mut k: usize = 0;
    while k < n
        invariant
            n == v@.len(),
            v@ == t@,
            k <= n,
            n > 0,
            v@[n - 1] == 'Z',
            utf8_len(v@) >= 20,
            forall|j: int| 0 <= j < k ==> v@[j] != 'T',
        decreases n - k,
    {
        if v[k] == 'T' {
            proof {
                assert(v@[k as int] == 'T');
                assert(v@.contains('T'));
                assert(v@.last() == 'Z');
            }
            return true;
        }
        k = k + 1;
    }
    false
}

/// One typed literal in the notation its column expects, or `None` when the
/// text is not a value of that type.
///
/// The checking is shallow: it decides whether the value is of the right
/// kind, and a query's validation does the rest.
pub fn literal(text: &str, data_type: DataType) -> (r: Option<Key>)
    ensures
        match r {
            Some(k) => literal_spec(text@, data_type) == Some(k@),
            None => literal_spec(text@, data_type) is None,
        },
{
    let t = trimmed(text);
    let s = t.as_str();
    match data_type {
        DataType::Utf8 => Some(Key::Text(t)),
        DataType::Bool => {
            if same_text(s, "true") || same_text(s, "on") || same_text(s, "1") {
                Some(Key::Bool(true))
            } else if same_text(s, "false") || same_text(s, "off") || same_text(s, "0")
                || s.unicode_len() == 0 {
                Some(Key::Bool(false))
            } else {
                None
            }
        },
        DataType::Int64 => match parse_i64(s) {
            Some(i) => Some(Key::Int(i)),
            None => None,
        },
        DataType::Float64 => {
            if same_text(s, "NaN") || same_text(s, "Infinity") || same_text(s, "-Infinity") {
                Some(Key::Text(t))
            } else if float_ok(s) {
                Some(Key::Number(t))
            } else {
                None
            }
        },
        DataType::Decimal { .. } => if decimal_ok(s) {
            Some(Key::Text(t))
        } else {
            None
        },
        DataType::Date => if date_ok(s) {
            Some(Key::Text(t))
        } else {
            None
        },
        DataType::Timestamp => if timestamp_ok(s) {
            Some(Key::Text(t))
        } else {
            None
        },
    }
}

/// The operators that make sense for a column: the substring tests for
/// text alone, equality everywhere, the ordered comparisons for everything
/// but booleans, and the null tests only where NULL can occur.
pub open spec fn operators_spec(data_type: DataType, nullable: bool) -> Seq<Seq<char>> {
    (if data_type == DataType::Utf8 {
        seq!["contains"@, "starts_with"@]
    } else {
        Seq::empty()
    }) + seq!["eq"@, "ne"@] + (if data_type != DataType::Bool {
        seq!["gt"@, "gte"@, "lt"@, "lte"@]
    } else {
        Seq::empty()
    }) + (if nullable {
        seq!["is_null"@, "is_not_null"@]
    } else {
        Seq::empty()
    })
}

/// The views of some tokens.
pub open spec fn tokens_view(v: Seq<&'static str>) -> Seq<Seq<char>> {
    v.map_values(|t: &'static str| t@)
}

/// The operators that make sense for a column.
pub fn operators_for(data_type: DataType, nullable: bool) -> (ops: Vec<&'static str>)
    ensures
        tokens_view(ops@) == operators_spec(data_type, nullable),
{
    let mut ops: Vec<&'static str> = Vec::new();
    if data_type == DataType::Utf8 {
        ops.push("contains");
        ops.push("starts_with");
    }
    ops.push("eq");
    ops.push("ne");
    if data_type != DataType::Bool {
        ops.push("gt");
        ops.push("gte");
        ops.push("lt");
        ops.push("lte");
    }
    if nullable {
        ops.push("is_null");
        ops.push("is_not_null");
    }
    proof {
        assert(tokens_view(ops@) =~= operators_spec(data_type, nullable));
    }
    ops
}

/// The `type` of the value input for a column.
pub open spec fn input_type_spec(data_type: DataType) -> Seq<char> {
    match data_type {
        DataType::Bool => "checkbox"@,
        DataType::Int64 | DataType::Float64 | DataType::Decimal { .. } => "number"@,
        DataType::Date => "date"@,
        DataType::Timestamp | DataType::Utf8 => "text"@,
    }
}

/// The `type` of the value input for a column: the browser then parses, and
/// an impossible value is harder to type in the first place.
pub fn input_type(data_type: DataType) -> (t: &'static str)
    ensures
        t@ == input_type_spec(data_type),
{
    match data_type {
        DataType::Bool => "checkbox",
        DataType::Int64 | DataType::Float64 | DataType::Decimal { .. } => "number",
        DataType::Date => "date",
        DataType::Timestamp | DataType::Utf8 => "text",
    }
}

/// The step of a number input that accepts the column's precision.
pub open spec fn input_step_spec(data_type: DataType) -> Option<Seq<char>> {
    match data_type {
        DataType::Int64 => Some("1"@),
        DataType::Float64 => Some("any"@),
        DataType::Decimal { precision, scale } => if scale > 0 {
            Some("0."@ + Seq::new((scale - 1) as nat, |i: int| '0') + "1"@)
        } else {
            Some("1"@)
        },
        _ => None,
    }
}

/// The `step` that lets a number input accept the column's precision;
/// without it a browser rounds a decimal to whole numbers.
pub fn input_step(data_type: DataType) -> (s: Option<String>)
    ensures
        match s {
            Some(x) => input_step_spec(data_type) == Some(x@),
            None => input_step_spec(data_type) is None,
        },
{
    match data_type {
        DataType::Int64 => Some("1".to_string()),
        DataType::Float64 => Some("any".to_string()),
        DataType::Decimal { precision, scale } => {
            if scale > 0 {
                let mut out = "0.".to_string();
                let mut i: u8 = 1;
                while i < scale
                    invariant
                        1 <= i <= scale,
                        out@ == "0."@ + Seq::new((i - 1) as nat, |j: int| '0'),
                    decreases scale - i,
                {
                    out.append("0");
                    proof {
                        reveal_strlit("0");
                        assert(out@ =~= "0."@ + Seq::new(i as nat, |j: int| '0'));
                    }
                    i = i + 1;
                }
                out.append("1");
                Some(out)
            } else {
                Some("1".to_string())
            }
        },
        _ => None,
    }
}

/// One entry of the filter row: a column, an operator and the raw value.
#[derive(Debug, PartialEq, Eq)]
pub struct FilterEntry {
    pub column: String,
    pub op: FilterOp,
    /// The raw value; a blank one means "no filter", except for the
    /// operators that take none.
    pub value: String,
}

/// An entry whose value does not fit its column: the column and what was
/// typed.
#[derive(Debug, PartialEq, Eq)]
pub struct FilterProblem {
    pub column: String,
    pub value: String,
}

/// What one entry of the filter row contributes.
pub enum Outcome {
    /// Nothing: an invalid or unknown column, or a blank value.
    Skip,
    /// A part of the filter.
    Part(FilterExprView),
    /// A problem: the column and the text that does not fit it.
    Problem(Seq<char>, Seq<char>),
}

/// What one entry of the filter row contributes under `fields`.
pub open spec fn entry_outcome(e: FilterEntry, fields: Seq<FieldV>) -> Outcome {
    if !valid_name(e.column@) {
        Outcome::Skip
    } else {
        match lookup(fields, e.column@) {
            None => Outcome::Skip,
            Some(f) => match e.op {
                FilterOp::IsNull => Outcome::Part(FilterExprView::IsNull { field: e.column@ }),
                FilterOp::IsNotNull => Outcome::Part(FilterExprView::IsNotNull { field: e.column@ }),
                FilterOp::Cmp(op) => if trim(e.value@).len() == 0 {
                    Outcome::Skip
                } else {
                    match literal_spec(e.value@, f.data_type) {
                        Some(v) => Outcome::Part(
                            FilterExprView::Cmp { field: e.column@, op, value: v },
                        ),
                        None => Outcome::Problem(e.column@, e.value@),
                    }
                },
            },
        }
    }
}

/// The parts among some outcomes, in order.
pub open spec fn parts_of(os: Seq<Outcome>) -> Seq<FilterExprView>
    decreases os.len(),
{
    if os.len() == 0 {
        Seq::empty()
    } else {
        match os.last() {
            Outcome::Part(e) => parts_of(os.drop_last()).push(e),
            _ => parts_of(os.drop_last()),
        }
    }
}

/// The problems among some outcomes, in order.
pub open spec fn problems_of(os: Seq<Outcome>) -> Seq<(Seq<char>, Seq<char>)>
    decreases os.len(),
{
    if os.len() == 0 {
        Seq::empty()
    } else {
        match os.last() {
            Outcome::Problem(c, v) => problems_of(os.drop_last()).push((c, v)),
            _ => problems_of(os.drop_last()),
        }
    }
}

/// The values of some problems.
pub open spec fn filter_problems_view(ps: Seq<FilterProblem>) -> Seq<(Seq<char>, Seq<char>)> {
    ps.map_values(|p: FilterProblem| (p.column@, p.value@))
}

/// The outcomes of the entries of the filter row.
pub open spec fn entry_outcomes(entries: Seq<FilterEntry>, fields: Seq<FieldV>) -> Seq<Outcome> {
    entries.map_values(|e: FilterEntry| entry_outcome(e, fields))
}

/// An entry whose value does not fit its column: a comparison with a
/// non-blank value on a column the schema has, which reads as no literal of
/// the column's type.
pub open spec fn refused(e: FilterEntry, fields: Seq<FieldV>) -> bool {
    &&& valid_name(e.column@)
    &&& lookup(fields, e.column@) matches Some(f)
    &&& e.op is Cmp
    &&& trim(e.value@).len() > 0
    &&& literal_spec(e.value@, f.data_type) is None
}

/// An entry that becomes a part of the filter: a null test, or a comparison
/// whose non-blank value reads as a literal, on a column the schema has.
pub open spec fn contributes(e: FilterEntry, fields: Seq<FieldV>) -> bool {
    &&& valid_name(e.column@)
    &&& lookup(fields, e.column@) matches Some(f)
    &&& match e.op {
        FilterOp::Cmp(_) => trim(e.value@).len() > 0 && literal_spec(e.value@, f.data_type) is Some,
        _ => true,
    }
}

/// Some outcome is a problem exactly when the problems are not empty, and
/// some is a part exactly when the parts are not.
proof fn lemma_outcomes_found(os: Seq<Outcome>)
    ensures
        problems_of(os).len() > 0 <==> exists|i: int| 0 <= i < os.len() && #[trigger] os[i] is Problem,
        parts_of(os).len() > 0 <==> exists|i: int| 0 <= i < os.len() && #[trigger] os[i] is Part,
    decreases os.len(),
{
    if os.len() > 0 {
        let d = os.drop_last();
        lemma_outcomes_found(d);
        if exists|i: int| 0 <= i < d.len() && #[trigger] d[i] is Problem {
            let i = choose|i: int| 0 <= i < d.len() && #[trigger] d[i] is Problem;
            assert(os[i] is Problem);
        }
        if exists|i: int| 0 <= i < d.len() && #[trigger] d[i] is Part {
            let i = choose|i: int| 0 <= i < d.len() && #[trigger] d[i] is Part;
            assert(os[i] is Part);
        }
        if exists|i: int| 0 <= i < os.len() && #[trigger] os[i] is Problem {
            let i = choose|i: int| 0 <= i < os.len() && #[trigger] os[i] is Problem;
            if i < os.len() - 1 {
                assert(d[i] is Problem);
            }
        }
        if exists|i: int| 0 <= i < os.len() && #[trigger] os[i] is Part {
            let i = choose|i: int| 0 <= i < os.len() && #[trigger] os[i] is Part;
            if i < os.len() - 1 {
                assert(d[i] is Part);
            }
        }
    }
}

/// What `filter_expr` answers, in terms of the entries: `Err` exactly when
/// some entry's value does not fit its column (its problems are those
/// entries, in order); otherwise `Ok(None)` exactly when no entry
/// contributes a part.
pub proof fn lemma_filter_row(entries: Seq<FilterEntry>, fields: Seq<FieldV>)
    ensures
        problems_of(entry_outcomes(entries, fields)).len() > 0 <==> exists|i: int|
            0 <= i < entries.len() && refused(#[trigger] entries[i], fields),
        parts_of(entry_outcomes(entries, fields)).len() > 0 <==> exists|i: int|
            0 <= i < entries.len() && contributes(#[trigger] entries[i], fields),
{
    let os = entry_outcomes(entries, fields);
    lemma_outcomes_found(os);
    assert forall|i: int| 0 <= i < entries.len() implies (os[i] is Problem <==> refused(
        #[trigger] entries[i],
        fields,
    )) && (os[i] is Part <==> contributes(entries[i], fields)) by {
        assert(os[i] == entry_outcome(entries[i], fields));
    }
    if exists|i: int| 0 <= i < entries.len() && refused(#[trigger] entries[i], fields) {
        let i = choose|i: int| 0 <= i < entries.len() && refused(#[trigger] entries[i], fields);
        assert(os[i] is Problem);
    }
    if exists|i: int| 0 <= i < entries.len() && contributes(#[trigger] entries[i], fields) {
        let i = choose|i: int| 0 <= i < entries.len() && contributes(#[trigger] entries[i], fields);
        assert(os[i] is Part);
    }
}

/// What an entry contributes, computed.
fn outcome_of(entry: &FilterEntry, schema: &Schema) -> (r: (Option<FilterExpr>, bool))
    ensures
        match entry_outcome(*entry, schema@) {
            Outcome::Skip => r.0 is None && !r.1,
            Outcome::Part(e) => r.0 is Some && expr_view(r.0->0) == e && !r.1,
            Outcome::Problem(_, _) => r.0 is None && r.1,
        },
{
    if !is_valid_name(entry.column.as_str()) {
        return (None, false);
    }
    let column = match schema.field(entry.column.as_str()) {
        Some(f) => f,
        None => return (None, false),
    };
    match entry.op {
        FilterOp::IsNull => (Some(FilterExpr::IsNull { field: entry.column.clone() }), false),
        FilterOp::IsNotNull => (Some(FilterExpr::IsNotNull { field: entry.column.clone() }), false),
        FilterOp::Cmp(op) => {
            let t = trimmed(entry.value.as_str());
            if t.unicode_len() == 0 {
                return (None, false);
            }
            match literal(entry.value.as_str(), column.data_type) {
                Some(value) => (Some(FilterExpr::Cmp { field: entry.column.clone(), op, value }), false),
                None => (None, true),
            }
        },
    }
}

/// The filter of the filter row, with every literal typed for its column.
///
/// Entries naming an invalid column or one the schema lacks are skipped,
/// and so are comparisons with a blank value. Any entry whose value does not
/// fit its column makes the answer `Err`, with every such entry in order;
/// otherwise the answer is the conjunction of the rest, or `None` when
/// nothing is left.
pub fn filter_expr(entries: &[FilterEntry], schema: &Schema) -> (r: Result<
    Option<FilterExpr>,
    Vec<FilterProblem>,
>)
    ensures
        ({
            let os = entry_outcomes(entries@, schema@);
            match r {
                Err(ps) => problems_of(os).len() > 0 && filter_problems_view(ps@) == problems_of(os),
                Ok(None) => problems_of(os).len() == 0 && parts_of(os).len() == 0,
                Ok(Some(e)) => problems_of(os).len() == 0 && parts_of(os).len() > 0 && expr_view(e)
                    == FilterExprView::And(parts_of(os)),
            }
        }),
{
    let ghost os = entry_outcomes(entries@, schema@);
    let mut parts: Vec<FilterExpr> = Vec::new();
    let mut problems: Vec<FilterProblem> = Vec::new();
    let mut i: usize = 0;
    while i < entries.len()
        invariant
            i <= entries@.len(),
            os == entry_outcomes(entries@, schema@),
            exprs_view(parts@) == parts_of(os.take(i as int)),
            filter_problems_view(problems@) == problems_of(os.take(i as int)),
        decreases entries.len() - i,
    {
        let (part, problem) = outcome_of(&entries[i], schema);
        proof {
            assert(os.take(i + 1).drop_last() =~= os.take(i as int));
            assert(os.take(i + 1).last() == entry_outcome(entries@[i as int], schema@));
        }
        match part {
            Some(e) => {
                let ghost before = exprs_view(parts@);
                parts.push(e);
                proof {
                    assert(exprs_view(parts@) =~= before.push(expr_view(e)));
                }
            },
            None => {},
        }
        if problem {
            let ghost before = filter_problems_view(problems@);
            problems.push(
                FilterProblem { column: entries[i].column.clone(), value: entries[i].value.clone() },
            );
            proof {
                assert(filter_problems_view(problems@) =~= before.push(
                    (entries@[i as int].column@, entries@[i as int].value@),
                ));
            }
        }
        i = i + 1;
    }
    proof {
        assert(os.take(i as int) =~= os);
    }
    if problems.len() > 0 {
        return Err(problems);
    }
    if parts.len() == 0 {
        return Ok(None);
    }
    proof {
        lemma_and_view(parts);
    }
    Ok(Some(FilterExpr::And(parts)))
}

/// The display schema of `columns` as far as it is known: a column a result
/// already typed keeps that type, the rest are text until a result says
/// otherwise, and a name that is not valid is left out.
pub open spec fn known_schema_spec(columns: Seq<Seq<char>>, known: Seq<FieldV>) -> Seq<FieldV>
    decreases columns.len(),
{
    if columns.len() == 0 {
        Seq::empty()
    } else {
        let rest = known_schema_spec(columns.drop_last(), known);
        let name = columns.last();
        match lookup(known, name) {
            Some(f) => rest.push(f),
            None => if valid_name(name) {
                rest.push(FieldV { name, data_type: DataType::Utf8, nullable: true })
            } else {
                rest
            },
        }
    }
}

/// A copy of a column.
pub fn copy_field(f: &Field) -> (r: Field)
    ensures
        r@ == f@,
{
    Field { name: f.name.clone(), data_type: f.data_type, nullable: f.nullable }
}

/// The schema of `columns` as far as it is known: `known` holds the
/// columns a result has typed.
pub fn known_schema(columns: &[String], known: &Schema) -> (s: Schema)
    ensures
        s@ == known_schema_spec(crate::text::views(columns@), known@),
{
    let ghost cs = crate::text::views(columns@);
    let mut fields: Vec<Field> = Vec::new();
    let mut i: usize = 0;
    while i < columns.len()
        invariant
            i <= columns@.len(),
            cs == crate::text::views(columns@),
            fields_view(fields@) == known_schema_spec(cs.take(i as int), known@),
        decreases columns.len() - i,
    {
        proof {
            assert(cs.take(i + 1).drop_last() =~= cs.take(i as int));
            assert(cs.take(i + 1).last() == columns@[i as int]@);
        }
        let ghost before = fields_view(fields@);
        match known.field(columns[i].as_str()) {
            Some(f) => {
                fields.push(copy_field(f));
                proof {
                    assert(fields_view(fields@) =~= before.push(f@));
                }
            },
            None => {
                if is_valid_name(columns[i].as_str()) {
                    let f = Field::new(columns[i].clone(), DataType::Utf8);
                    fields.push(f);
                    proof {
                        assert(fields_view(fields@) =~= before.push(f@));
                    }
                }
            },
        }
        i = i + 1;
    }
    proof {
        assert(cs.take(i as int) =~= cs);
    }
    Schema { fields }
}

/// The schema of `columns` before any result: every column is display text.
pub fn initial_schema(columns: &[String]) -> (s: Schema)
    ensures
        s@ == known_schema_spec(crate::text::views(columns@), Seq::empty()),
{
    let none = Schema::new(Vec::new());
    proof {
        assert(none@ =~= Seq::<FieldV>::empty());
    }
    known_schema(columns, &none)
}

/// Whether a token is none of the operators that every column or no
/// ordered column offers.
pub open spec fn not_unordered(t: Seq<char>) -> bool {
    t != "contains"@ && t != "starts_with"@ && t != "eq"@ && t != "ne"@ && t != "is_null"@ && t
        != "is_not_null"@
}

/// The comparison tokens are not the others.
proof fn lemma_operator_names()
    ensures
        not_unordered("gt"@) && not_unordered("gte"@) && not_unordered("lt"@) && not_unordered(
            "lte"@,
        ),
        "is_null"@ != "contains"@ && "is_null"@ != "starts_with"@ && "is_null"@ != "eq"@
            && "is_null"@ != "ne"@ && "is_null"@ != "gt"@ && "is_null"@ != "gte"@ && "is_null"@
            != "lt"@ && "is_null"@ != "lte"@,
{
    reveal_strlit("gt");
    reveal_strlit("gte");
    reveal_strlit("lt");
    reveal_strlit("lte");
    reveal_strlit("contains");
    reveal_strlit("starts_with");
    reveal_strlit("eq");
    reveal_strlit("ne");
    reveal_strlit("is_null");
    reveal_strlit("is_not_null");
    assert("gt"@[0] != "eq"@[0] && "gt"@[0] != "ne"@[0]);
    assert("lt"@[0] != "eq"@[0] && "lt"@[0] != "ne"@[0]);
    assert("gte"@.len() != "eq"@.len() && "lte"@.len() != "ne"@.len());
    assert("gt"@.len() != "contains"@.len() && "gte"@.len() != "contains"@.len());
    assert("lt"@.len() != "contains"@.len() && "lte"@.len() != "contains"@.len());
    assert("gt"@.len() != "starts_with"@.len() && "gte"@.len() != "starts_with"@.len());
    assert("lt"@.len() != "starts_with"@.len() && "lte"@.len() != "starts_with"@.len());
    assert("gt"@.len() != "is_null"@.len() && "gte"@.len() != "is_null"@.len());
    assert("lt"@.len() != "is_null"@.len() && "lte"@.len() != "is_null"@.len());
    assert("gt"@.len() != "is_not_null"@.len() && "gte"@.len() != "is_not_null"@.len());
    assert("lt"@.len() != "is_not_null"@.len() && "lte"@.len() != "is_not_null"@.len());
    assert("is_null"@.len() != "contains"@.len() && "is_null"@.len() != "starts_with"@.len());
    assert("is_null"@.len() != "eq"@.len() && "is_null"@.len() != "ne"@.len());
    assert("is_null"@.len() != "gt"@.len() && "is_null"@.len() != "gte"@.len());
    assert("is_null"@.len() != "lt"@.len() && "is_null"@.len() != "lte"@.len());
}

/// What a column's filter offers: `eq` and `ne` always; the ordered
/// comparisons `gt`, `gte`, `lt` and `lte` for every type but `Bool` —
/// dates, timestamps and numbers can be filtered before and after a value;
/// the text tests for text only; the NULL tests exactly when the column can
/// hold NULL.
pub proof fn lemma_operators_offered(data_type: DataType, nullable: bool)
    ensures
        operators_spec(data_type, nullable).contains("eq"@),
        operators_spec(data_type, nullable).contains("ne"@),
        operators_spec(data_type, nullable).contains("gt"@) <==> data_type != DataType::Bool,
        operators_spec(data_type, nullable).contains("gte"@) <==> data_type != DataType::Bool,
        operators_spec(data_type, nullable).contains("lt"@) <==> data_type != DataType::Bool,
        operators_spec(data_type, nullable).contains("lte"@) <==> data_type != DataType::Bool,
        operators_spec(data_type, nullable).contains("is_null"@) <==> nullable,
        data_type == DataType::Utf8 ==> operators_spec(data_type, nullable).contains("contains"@)
            && operators_spec(data_type, nullable).contains("starts_with"@),
        operators_spec(data_type, nullable).len() == (if data_type == DataType::Utf8 {
            2int
        } else {
            0
        }) + 2 + (if data_type != DataType::Bool {
            4int
        } else {
            0
        }) + (if nullable {
            2int
        } else {
            0
        }),
{
    lemma_operator_names();
    let ops = operators_spec(data_type, nullable);
    let a: Seq<Seq<char>> = if data_type == DataType::Utf8 {
        seq!["contains"@, "starts_with"@]
    } else {
        Seq::empty()
    };
    let b: Seq<Seq<char>> = seq!["eq"@, "ne"@];
    let c: Seq<Seq<char>> = if data_type != DataType::Bool {
        seq!["gt"@, "gte"@, "lt"@, "lte"@]
    } else {
        Seq::empty()
    };
    let d: Seq<Seq<char>> = if nullable {
        seq!["is_null"@, "is_not_null"@]
    } else {
        Seq::empty()
    };
    assert(ops == a + b + c + d);
    let al = a.len() as int;
    assert(ops[al] == "eq"@);
    assert(ops[al + 1] == "ne"@);
    if data_type != DataType::Bool {
        assert(ops[al + 2] == "gt"@);
        assert(ops[al + 3] == "gte"@);
        assert(ops[al + 4] == "lt"@);
        assert(ops[al + 5] == "lte"@);
    } else {
        assert forall|i: int| 0 <= i < ops.len() implies ops[i] != "gt"@ && ops[i] != "gte"@
            && ops[i] != "lt"@ && ops[i] != "lte"@ by {
            if i < al {
                assert(ops[i] == a[i]);
            } else if i < al + 2 {
                assert(ops[i] == b[i - al]);
            } else {
                assert(ops[i] == d[i - al - 2]);
            }
        }
    }
    if nullable {
        assert(ops[al + 2 + c.len()] == "is_null"@);
    } else {
        assert forall|i: int| 0 <= i < ops.len() implies ops[i] != "is_null"@ by {
            if i < al {
                assert(ops[i] == a[i]);
            } else if i < al + 2 {
                assert(ops[i] == b[i - al]);
            } else {
                assert(ops[i] == c[i - al - 2]);
            }
        }
    }
    if data_type == DataType::Utf8 {
        assert(ops[0] == "contains"@);
        assert(ops[1] == "starts_with"@);
    }
}

} // verus!
