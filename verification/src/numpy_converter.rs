//! Conversion table from NumPy operations to their Trueno equivalents.

use vstd::prelude::*;
use vstd::string::*;
use crate::text::texts;

verus! {

/// How much compute an operation needs for each byte it moves.
#[derive(Debug, Clone, Copy, PartialEq, Eq, Hash, Structural)]
pub enum OpComplexity {
    /// Bound by memory: element-wise and structural operations.
    Low,
    /// Reductions.
    Medium,
    /// Dot products and matrix operations.
    High,
}

impl OpComplexity {
    /// The name of a complexity, as a sequence of characters.
    pub open spec fn name_text(self) -> Seq<char> {
        match self {
            OpComplexity::Low => "Low"@,
            OpComplexity::Medium => "Medium"@,
            OpComplexity::High => "High"@,
        }
    }

    /// Name of the complexity.
    pub fn name(&self) -> (text: &'static str)
        ensures
            text@ == self.name_text(),
    {
        match self {
            OpComplexity::Low => "Low",
            OpComplexity::Medium => "Medium",
            OpComplexity::High => "High",
        }
    }
}

/// A NumPy operation.
#[derive(Debug, Clone, Copy, PartialEq, Eq, Hash, Structural)]
pub enum NumPyOp {
    /// Array creation.
    Array,
    /// Element-wise addition.
    Add,
    /// Element-wise subtraction.
    Subtract,
    /// Element-wise multiplication.
    Multiply,
    /// Element-wise division.
    Divide,
    /// Dot product or matrix multiplication.
    Dot,
    /// Sum reduction.
    Sum,
    /// Mean reduction.
    Mean,
    /// Max reduction.
    Max,
    /// Min reduction.
    Min,
    /// Reshape.
    Reshape,
    /// Transpose.
    Transpose,
}

impl NumPyOp {
    /// The complexity of an operation: high for a dot product, medium for a
    /// reduction, low for everything else.
    pub open spec fn spec_complexity(self) -> OpComplexity {
        match self {
            NumPyOp::Sum | NumPyOp::Mean | NumPyOp::Max | NumPyOp::Min => OpComplexity::Medium,
            NumPyOp::Dot => OpComplexity::High,
            _ => OpComplexity::Low,
        }
    }

    /// The name of an operation, as a sequence of characters.
    pub open spec fn name_text(self) -> Seq<char> {
        match self {
            NumPyOp::Array => "Array"@,
            NumPyOp::Add => "Add"@,
            NumPyOp::Subtract => "Subtract"@,
            NumPyOp::Multiply => "Multiply"@,
            NumPyOp::Divide => "Divide"@,
            NumPyOp::Dot => "Dot"@,
            NumPyOp::Sum => "Sum"@,
            NumPyOp::Mean => "Mean"@,
            NumPyOp::Max => "Max"@,
            NumPyOp::Min => "Min"@,
            NumPyOp::Reshape => "Reshape"@,
            NumPyOp::Transpose => "Transpose"@,
        }
    }

    /// Complexity of the operation, by which a backend is chosen.
    pub fn complexity(&self) -> (level: OpComplexity)
        ensures
            level == self.spec_complexity(),
    {
        match self {
            NumPyOp::Add | NumPyOp::Subtract | NumPyOp::Multiply | NumPyOp::Divide => OpComplexity::Low,
            NumPyOp::Sum | NumPyOp::Mean | NumPyOp::Max | NumPyOp::Min => OpComplexity::Medium,
            NumPyOp::Dot => OpComplexity::High,
            NumPyOp::Array | NumPyOp::Reshape | NumPyOp::Transpose => OpComplexity::Low,
        }
    }

    /// Name of the operation.
    pub fn name(&self) -> (text: &'static str)
        ensures
            text@ == self.name_text(),
    {
        match self {
            NumPyOp::Array => "Array",
            NumPyOp::Add => "Add",
            NumPyOp::Subtract => "Subtract",
            NumPyOp::Multiply => "Multiply",
            NumPyOp::Divide => "Divide",
            NumPyOp::Dot => "Dot",
            NumPyOp::Sum => "Sum",
            NumPyOp::Mean => "Mean",
            NumPyOp::Max => "Max",
            NumPyOp::Min => "Min",
            NumPyOp::Reshape => "Reshape",
            NumPyOp::Transpose => "Transpose",
        }
    }
}

/// The Trueno equivalent of an operation.
#[derive(Debug, Clone)]
pub struct TruenoOp {
    /// Template of the Rust code.
    pub code_template: String,
    /// Imports that the code needs.
    pub imports: Vec<String>,
    /// Complexity of the operation.
    pub complexity: OpComplexity,
}

/// The import that every conversion needs.
pub open spec fn vector_import() -> Seq<char> {
    "use trueno::Vector;"@
}

/// The code template of a convertible operation.
pub open spec fn template_of(op: NumPyOp) -> Option<Seq<char>> {
    match op {
        NumPyOp::Array => Some("Vector::from_slice(&[{values}])"@),
        NumPyOp::Add => Some("{lhs}.add(&{rhs}).unwrap()"@),
        NumPyOp::Subtract => Some("{lhs}.sub(&{rhs}).unwrap()"@),
        NumPyOp::Multiply => Some("{lhs}.mul(&{rhs}).unwrap()"@),
        NumPyOp::Sum => Some("{array}.sum()"@),
        NumPyOp::Dot => Some("{lhs}.dot(&{rhs}).unwrap()"@),
        _ => None,
    }
}

/// The convertible operations, in the order of the table.
pub open spec fn convertible_ops() -> Seq<NumPyOp> {
    seq![NumPyOp::Array, NumPyOp::Add, NumPyOp::Subtract, NumPyOp::Multiply, NumPyOp::Sum, NumPyOp::Dot]
}

/// One line of the conversion table.
#[derive(Debug, Clone)]
pub struct Conversion {
    /// The NumPy operation.
    pub op: NumPyOp,
    /// Its Trueno equivalent.
    pub target: TruenoOp,
}

impl Conversion {
    /// Whether the line holds the default conversion of its operation.
    pub open spec fn is_default(self) -> bool {
        &&& template_of(self.op) == Some(self.target.code_template@)
        &&& texts(self.target.imports@) == seq![vector_import()]
        &&& self.target.complexity == self.op.spec_complexity()
    }

    /// The lines that a report shows for this conversion.
    pub open spec fn report_text(self) -> Seq<char> {
        self.op.name_text() + ":\n"@ + "  Complexity: "@ + self.target.complexity.name_text() + "\n"@
            + "  Template: "@ + self.target.code_template@ + "\n"@ + "  Imports: "@ + comma_joined(
            texts(self.target.imports@),
        ) + "\n\n"@
    }
}

/// The parts of `parts`, separated by a comma and a space.
pub open spec fn comma_joined(parts: Seq<Seq<char>>) -> Seq<char>
    decreases parts.len(),
{
    if parts.len() == 0 {
        Seq::empty()
    } else if parts.len() == 1 {
        parts[0]
    } else {
        comma_joined(parts.drop_last()) + ", "@ + parts.last()
    }
}

/// The report lines of `table`, in order.
pub open spec fn table_text(table: Seq<Conversion>) -> Seq<char>
    decreases table.len(),
{
    if table.len() == 0 {
        Seq::empty()
    } else {
        table_text(table.drop_last()) + table.last().report_text()
    }
}

/// The first position in `table` of the conversion of `op`.
pub open spec fn find_op(table: Seq<Conversion>, op: NumPyOp) -> Option<int>
    decreases table.len(),
{
    if table.len() == 0 {
        None
    } else {
        match find_op(table.drop_last(), op) {
            Some(i) => Some(i),
            None => if table.last().op == op {
                Some(table.len() - 1)
            } else {
                None
            },
        }
    }
}

/// A conversion found in a prefix of `table` is the one found in `table`.
pub proof fn lemma_find_op_prefix(table: Seq<Conversion>, op: NumPyOp, k: int)
    requires
        0 <= k <= table.len(),
        find_op(table.take(k), op) is Some,
    ensures
        find_op(table, op) == find_op(table.take(k), op),
    decreases table.len() - k,
{
    if k < table.len() {
        assert(table.take(k + 1).drop_last() =~= table.take(k));
        lemma_find_op_prefix(table, op, k + 1);
    } else {
        assert(table.take(k) =~= table);
    }
}

/// What [`find_op`] finds is a conversion of that operation, and it finds
/// none only where there is none.
pub proof fn lemma_find_op(table: Seq<Conversion>, op: NumPyOp)
    ensures
        match find_op(table, op) {
            Some(i) => 0 <= i < table.len() && table[i].op == op,
            None => forall|j: int| 0 <= j < table.len() ==> table[j].op != op,
        },
    decreases table.len(),
{
    if table.len() > 0 {
        let front = table.drop_last();
        lemma_find_op(front, op);
        assert(forall|j: int| 0 <= j < front.len() ==> front[j] == table[j]);
    }
}

/// Joins `parts` with a comma and a space.
pub fn join_with_commas(parts: &Vec<String>) -> (text: String)
    ensures
        text@ == comma_joined(texts(parts@)),
{
    let mut text = String::new();
    let mut i: usize = 0;
    assert(texts(parts@).take(0) =~= Seq::<Seq<char>>::empty());
    while i < parts.len()
        invariant
            i <= parts@.len(),
            text@ == comma_joined(texts(parts@).take(i as int)),
        decreases parts@.len() - i,
    {
        proof {
            assert(texts(parts@).take(i + 1).drop_last() =~= texts(parts@).take(i as int));
            assert(texts(parts@).take(i + 1).last() == parts@[i as int]@);
            if i == 0 {
                assert(texts(parts@).take(1)[0] == parts@[0]@);
                assert(Seq::<char>::empty() + parts@[0]@ =~= parts@[0]@);
            }
        }
        if i > 0 {
            text.append(", ");
        }
        text.append(parts[i].as_str());
        i += 1;
    }
    assert(texts(parts@).take(i as int) =~= texts(parts@));
    text
}

/// Converter from NumPy operations to Trueno operations.
#[derive(Debug, Clone)]
pub struct NumPyConverter {
    op_map: Vec<Conversion>,
}

impl NumPyConverter {
    /// The conversion table.
    pub closed spec fn table(&self) -> Seq<Conversion> {
        self.op_map@
    }

    /// Whether `table` is the default table: one default conversion for each
    /// convertible operation, in order.
    pub open spec fn is_default_table(table: Seq<Conversion>) -> bool {
        &&& table.len() == convertible_ops().len()
        &&& forall|i: int| 0 <= i < table.len() ==> (#[trigger] table[i]).op == convertible_ops()[i] && table[i].is_default()
    }

    fn default_conversion(op: NumPyOp, template: &str) -> (line: Conversion)
        requires
            template_of(op) == Some(template@),
        ensures
            line.op == op,
            line.is_default(),
    {
        let mut imports: Vec<String> = Vec::new();
        imports.push(String::from_str("use trueno::Vector;"));
        assert(texts(imports@) =~= seq![vector_import()]);
        Conversion {
            op,
            target: TruenoOp { code_template: String::from_str(template), imports, complexity: op.complexity() },
        }
    }

    /// A converter with the default table.
    pub fn new() -> (converter: Self)
        ensures
            Self::is_default_table(converter.table()),
    {
        let mut op_map: Vec<Conversion> = Vec::new();
        op_map.push(Self::default_conversion(NumPyOp::Array, "Vector::from_slice(&[{values}])"));
        op_map.push(Self::default_conversion(NumPyOp::Add, "{lhs}.add(&{rhs}).unwrap()"));
        op_map.push(Self::default_conversion(NumPyOp::Subtract, "{lhs}.sub(&{rhs}).unwrap()"));
        op_map.push(Self::default_conversion(NumPyOp::Multiply, "{lhs}.mul(&{rhs}).unwrap()"));
        op_map.push(Self::default_conversion(NumPyOp::Sum, "{array}.sum()"));
        op_map.push(Self::default_conversion(NumPyOp::Dot, "{lhs}.dot(&{rhs}).unwrap()"));
        NumPyConverter { op_map }
    }

    /// The Trueno equivalent of `op`, if the table holds one.
    pub fn convert(&self, op: &NumPyOp) -> (target: Option<&TruenoOp>)
        ensures
            match target {
                Some(t) => find_op(self.table(), *op) is Some && *t == self.table()[find_op(self.table(), *op)->0].target,
                None => find_op(self.table(), *op) is None,
            },
            target is Some <==> exists|i: int| 0 <= i < self.table().len() && self.table()[i].op == *op,
    {
        proof {
            lemma_find_op(self.op_map@, *op);
        }
        let mut i: usize = 0;
        assert(self.op_map@.take(0) =~= Seq::<Conversion>::empty());
        while i < self.op_map.len()
            invariant
                i <= self.op_map@.len(),
                find_op(self.op_map@.take(i as int), *op) is None,
            decreases self.op_map@.len() - i,
        {
            proof {
                assert(self.op_map@.take(i + 1).drop_last() =~= self.op_map@.take(i as int));
                if self.op_map@[i as int].op == *op {
                    lemma_find_op_prefix(self.op_map@, *op, i + 1);
                }
            }
            if self.op_map[i].op == *op {
                return Some(&self.op_map[i].target);
            }
            i += 1;
        }
        assert(self.op_map@.take(i as int) =~= self.op_map@);
        None
    }

    /// The operations that the table converts, in table order.
    pub fn available_ops(&self) -> (ops: Vec<NumPyOp>)
        ensures
            ops@.len() == self.table().len(),
            forall|i: int| 0 <= i < ops@.len() ==> #[trigger] ops@[i] == self.table()[i].op,
    {
        let mut ops: Vec<NumPyOp> = Vec::new();
        let mut i: usize = 0;
        while i < self.op_map.len()
            invariant
                i <= self.op_map@.len(),
                ops@.len() == i,
                forall|j: int| 0 <= j < i ==> #[trigger] ops@[j] == self.op_map@[j].op,
            decreases self.op_map@.len() - i,
        {
            ops.push(self.op_map[i].op);
            i += 1;
        }
        ops
    }

    fn report_lines(line: &Conversion) -> (text: String)
        ensures
            text@ == line.report_text(),
    {
        let mut text = String::from_str(line.op.name());
        text.append(":\n");
        text.append("  Complexity: ");
        text.append(line.target.complexity.name());
        text.append("\n");
        text.append("  Template: ");
        text.append(line.target.code_template.as_str());
        text.append("\n");
        text.append("  Imports: ");
        text.append(join_with_commas(&line.target.imports).as_str());
        text.append("\n\n");
        text
    }

    /// The head of the report.
    pub open spec fn report_head() -> Seq<char> {
        "NumPy → Trueno Conversion Map\n"@ + "================================\n\n"@
    }

    /// A report of the table: a head, then for each conversion its name,
    /// complexity, template and imports.
    pub fn conversion_report(&self) -> (report: String)
        ensures
            report@ == Self::report_head() + table_text(self.table()),
    {
        let mut report = String::from_str("NumPy → Trueno Conversion Map\n");
        report.append("================================\n\n");
        let ghost head = report@;
        let mut i: usize = 0;
        assert(self.op_map@.take(0) =~= Seq::<Conversion>::empty());
        assert(head + table_text(self.op_map@.take(0)) =~= head);
        while i < self.op_map.len()
            invariant
                i <= self.op_map@.len(),
                head == Self::report_head(),
                report@ == head + table_text(self.op_map@.take(i as int)),
            decreases self.op_map@.len() - i,
        {
            assert(self.op_map@.take(i + 1).drop_last() =~= self.op_map@.take(i as int));
            report.append(Self::report_lines(&self.op_map[i]).as_str());
            i += 1;
        }
        assert(self.op_map@.take(i as int) =~= self.op_map@);
        report
    }
}

impl Default for NumPyConverter {
    fn default() -> (converter: Self)
        ensures
            Self::is_default_table(converter.table()),
    {
        NumPyConverter::new()
    }
}

/// The default table converts exactly the convertible operations.
pub proof fn lemma_default_table_converts(table: Seq<Conversion>, op: NumPyOp)
    requires
        NumPyConverter::is_default_table(table),
    ensures
        find_op(table, op) is Some <==> template_of(op) is Some,
        find_op(table, op) is Some ==> table[find_op(table, op)->0].target.code_template@ == template_of(op)->0,
{
    lemma_find_op(table, op);
    assert(table[0].op == NumPyOp::Array);
    assert(table[1].op == NumPyOp::Add);
    assert(table[2].op == NumPyOp::Subtract);
    assert(table[3].op == NumPyOp::Multiply);
    assert(table[4].op == NumPyOp::Sum);
    assert(table[5].op == NumPyOp::Dot);
    match find_op(table, op) {
        Some(i) => {
            assert(table[i].is_default());
        },
        None => {},
    }
}

} // verus!
