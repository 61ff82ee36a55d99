//! The notation tables: which kinds are written as operators, which as functions,
//! which as a fixed word, and which show their value.

use vstd::prelude::*;

use crate::text::same_text;

verus! {

/// The characters of an optional piece of fixed text.
pub open spec fn written(symbol: Option<&'static str>) -> Option<Seq<char>> {
    match symbol {
        Some(text) => Some(text@),
        None => None,
    }
}

/// The operator sign of an n-ary operation, by the kind's name.
pub open spec fn infix_symbol_of(name: Seq<char>) -> Option<Seq<char>> {
    if name == "Addition"@ {
        Some("+"@)
    } else if name == "Subtraction"@ {
        Some("-"@)
    } else if name == "Multiplication"@ {
        Some("*"@)
    } else if name == "Division"@ {
        Some("/"@)
    } else if name == "Power"@ {
        Some("^"@)
    } else {
        None
    }
}

/// Looks up the operator sign of an n-ary operation.
pub fn infix_symbol(name: &str) -> (symbol: Option<&'static str>)
    ensures
        written(symbol) == infix_symbol_of(name@),
{
    if same_text(name, "Addition") {
        Some("+")
    } else if same_text(name, "Subtraction") {
        Some("-")
    } else if same_text(name, "Multiplication") {
        Some("*")
    } else if same_text(name, "Division") {
        Some("/")
    } else if same_text(name, "Power") {
        Some("^")
    } else {
        None
    }
}

/// The written name of a function applied in prefix form, by the kind's name.
pub open spec fn prefix_symbol_of(name: Seq<char>) -> Option<Seq<char>> {
    if name == "AbsoluteValue"@ {
        Some("abs"@)
    } else if name == "ArcCosine"@ {
        Some("acos"@)
    } else if name == "ArcSine"@ {
        Some("asin"@)
    } else if name == "ArcTangent"@ {
        Some("atan"@)
    } else if name == "BinomCDF"@ {
        Some("bCDF"@)
    } else if name == "BinomPDF"@ {
        Some("bPDF"@)
    } else if name == "Ceiling"@ {
        Some("ceil"@)
    } else if name == "Conjugate"@ {
        Some("conj"@)
    } else if name == "Cosine"@ {
        Some("cos"@)
    } else if name == "Derivative"@ {
        Some("der"@)
    } else if name == "Floor"@ {
        Some("floor"@)
    } else if name == "FracPart"@ {
        Some("frac"@)
    } else if name == "GreatCommonDivisor"@ {
        Some("gcd"@)
    } else if name == "HyperbolicArcCosine"@ {
        Some("hacos"@)
    } else if name == "HyperbolicArcSine"@ {
        Some("hasin"@)
    } else if name == "HyperbolicArcTangent"@ {
        Some("hatan"@)
    } else if name == "HyperbolicCosine"@ {
        Some("hcos"@)
    } else if name == "HyperbolicSine"@ {
        Some("hsin"@)
    } else if name == "HyperbolicTangent"@ {
        Some("htan"@)
    } else if name == "ImaginaryPart"@ {
        Some("imag"@)
    } else if name == "LeastCommonMultiple"@ {
        Some("lcm"@)
    } else if name == "Integral"@ {
        Some("int"@)
    } else if name == "Logarithm"@ {
        Some("log"@)
    } else if name == "Opposite"@ {
        Some("-"@)
    } else if name == "Randint"@ {
        Some("randint"@)
    } else if name == "Random"@ {
        Some("rand"@)
    } else if name == "RealPart"@ {
        Some("real"@)
    } else if name == "Round"@ {
        Some("round"@)
    } else if name == "SignFunction"@ {
        Some("sign"@)
    } else if name == "Sine"@ {
        Some("sin"@)
    } else if name == "Tangent"@ {
        Some("tan"@)
    } else if name == "SquareRoot"@ {
        Some("sqrt"@)
    } else if name == "NaperianLogarithm"@ {
        Some("ln"@)
    } else {
        None
    }
}

/// Looks up the written name of a prefix function.
pub fn prefix_symbol(name: &str) -> (symbol: Option<&'static str>)
    ensures
        written(symbol) == prefix_symbol_of(name@),
{
    if same_text(name, "AbsoluteValue") {
        Some("abs")
    } else if same_text(name, "ArcCosine") {
        Some("acos")
    } else if same_text(name, "ArcSine") {
        Some("asin")
    } else if same_text(name, "ArcTangent") {
        Some("atan")
    } else if same_text(name, "BinomCDF") {
        Some("bCDF")
    } else if same_text(name, "BinomPDF") {
        Some("bPDF")
    } else if same_text(name, "Ceiling") {
        Some("ceil")
    } else if same_text(name, "Conjugate") {
        Some("conj")
    } else if same_text(name, "Cosine") {
        Some("cos")
    } else if same_text(name, "Derivative") {
        Some("der")
    } else if same_text(name, "Floor") {
        Some("floor")
    } else if same_text(name, "FracPart") {
        Some("frac")
    } else if same_text(name, "GreatCommonDivisor") {
        Some("gcd")
    } else if same_text(name, "HyperbolicArcCosine") {
        Some("hacos")
    } else if same_text(name, "HyperbolicArcSine") {
        Some("hasin")
    } else if same_text(name, "HyperbolicArcTangent") {
        Some("hatan")
    } else if same_text(name, "HyperbolicCosine") {
        Some("hcos")
    } else if same_text(name, "HyperbolicSine") {
        Some("hsin")
    } else if same_text(name, "HyperbolicTangent") {
        Some("htan")
    } else if same_text(name, "ImaginaryPart") {
        Some("imag")
    } else if same_text(name, "LeastCommonMultiple") {
        Some("lcm")
    } else if same_text(name, "Integral") {
        Some("int")
    } else if same_text(name, "Logarithm") {
        Some("log")
    } else if same_text(name, "Opposite") {
        Some("-")
    } else if same_text(name, "Randint") {
        Some("randint")
    } else if same_text(name, "Random") {
        Some("rand")
    } else if same_text(name, "RealPart") {
        Some("real")
    } else if same_text(name, "Round") {
        Some("round")
    } else if same_text(name, "SignFunction") {
        Some("sign")
    } else if same_text(name, "Sine") {
        Some("sin")
    } else if same_text(name, "Tangent") {
        Some("tan")
    } else if same_text(name, "SquareRoot") {
        Some("sqrt")
    } else if same_text(name, "NaperianLogarithm") {
        Some("ln")
    } else {
        None
    }
}

/// The fixed word that stands for a kind, by the kind's name.
pub open spec fn plain_name_of(name: Seq<char>) -> Option<Seq<char>> {
    if name == "Undefined"@ {
        Some("undef"@)
    } else {
        None
    }
}

/// Looks up the fixed word that stands for a kind.
pub fn plain_name(name: &str) -> (symbol: Option<&'static str>)
    ensures
        written(symbol) == plain_name_of(name@),
{
    if same_text(name, "Undefined") {
        Some("undef")
    } else {
        None
    }
}

/// Whether nodes of this kind are written as their value alone.
pub open spec fn carries_value(name: Seq<char>) -> bool {
    ||| name == "Symbol"@
    ||| name == "SymbolAbstract"@
    ||| name == "Sequence"@
    ||| name == "Function"@
    ||| name == "Constant"@
    ||| name == "BasedInteger"@
    ||| name == "CodePointLayout"@
    ||| name == "Decimal"@
    ||| name == "Float"@
    ||| name == "Infinity"@
    ||| name == "Integer"@
    ||| name == "Matrix"@
    ||| name == "Rational"@
    ||| name == "Unit"@
}

/// Tells whether nodes of this kind are written as their value alone.
pub fn shows_value(name: &str) -> (shown: bool)
    ensures
        shown == carries_value(name@),
{
    same_text(name, "Symbol")
        || same_text(name, "SymbolAbstract")
        || same_text(name, "Sequence")
        || same_text(name, "Function")
        || same_text(name, "Constant")
        || same_text(name, "BasedInteger")
        || same_text(name, "CodePointLayout")
        || same_text(name, "Decimal")
        || same_text(name, "Float")
        || same_text(name, "Infinity")
        || same_text(name, "Integer")
        || same_text(name, "Matrix")
        || same_text(name, "Rational")
        || same_text(name, "Unit")
}

/// The name of the explicit grouping stands in none of the tables.
pub proof fn lemma_grouping_stands_apart()
    ensures
        !carries_value("Parenthesis"@),
        infix_symbol_of("Parenthesis"@) is None,
        prefix_symbol_of("Parenthesis"@) is None,
        plain_name_of("Parenthesis"@) is None,
{
    reveal_strlit("Parenthesis");
    assert("Parenthesis"@.len() == 11 && "Parenthesis"@[0] == 'P');
    reveal_strlit("Addition");
    assert("Addition"@.len() == 8);
    reveal_strlit("Subtraction");
    assert("Subtraction"@[0] == 'S');
    reveal_strlit("Multiplication");
    assert("Multiplication"@.len() == 14);
    reveal_strlit("Division");
    assert("Division"@.len() == 8);
    reveal_strlit("Power");
    assert("Power"@.len() == 5);
    reveal_strlit("AbsoluteValue");
    assert("AbsoluteValue"@.len() == 13);
    reveal_strlit("ArcCosine");
    assert("ArcCosine"@.len() == 9);
    reveal_strlit("ArcSine");
    assert("ArcSine"@.len() == 7);
    reveal_strlit("ArcTangent");
    assert("ArcTangent"@.len() == 10);
    reveal_strlit("BinomCDF");
    assert("BinomCDF"@.len() == 8);
    reveal_strlit("BinomPDF");
    assert("BinomPDF"@.len() == 8);
    reveal_strlit("Ceiling");
    assert("Ceiling"@.len() == 7);
    reveal_strlit("Conjugate");
    assert("Conjugate"@.len() == 9);
    reveal_strlit("Cosine");
    assert("Cosine"@.len() == 6);
    reveal_strlit("Derivative");
    assert("Derivative"@.len() == 10);
    reveal_strlit("Floor");
    assert("Floor"@.len() == 5);
    reveal_strlit("FracPart");
    assert("FracPart"@.len() == 8);
    reveal_strlit("GreatCommonDivisor");
    assert("GreatCommonDivisor"@.len() == 18);
    reveal_strlit("HyperbolicArcCosine");
    assert("HyperbolicArcCosine"@.len() == 19);
    reveal_strlit("HyperbolicArcSine");
    assert("HyperbolicArcSine"@.len() == 17);
    reveal_strlit("HyperbolicArcTangent");
    assert("HyperbolicArcTangent"@.len() == 20);
    reveal_strlit("HyperbolicCosine");
    assert("HyperbolicCosine"@.len() == 16);
    reveal_strlit("HyperbolicSine");
    assert("HyperbolicSine"@.len() == 14);
    reveal_strlit("HyperbolicTangent");
    assert("HyperbolicTangent"@.len() == 17);
    reveal_strlit("ImaginaryPart");
    assert("ImaginaryPart"@.len() == 13);
    reveal_strlit("LeastCommonMultiple");
    assert("LeastCommonMultiple"@.len() == 19);
    reveal_strlit("Integral");
    assert("Integral"@.len() == 8);
    reveal_strlit("Logarithm");
    assert("Logarithm"@.len() == 9);
    reveal_strlit("Opposite");
    assert("Opposite"@.len() == 8);
    reveal_strlit("Randint");
    assert("Randint"@.len() == 7);
    reveal_strlit("Random");
    assert("Random"@.len() == 6);
    reveal_strlit("RealPart");
    assert("RealPart"@.len() == 8);
    reveal_strlit("Round");
    assert("Round"@.len() == 5);
    reveal_strlit("SignFunction");
    assert("SignFunction"@.len() == 12);
    reveal_strlit("Sine");
    assert("Sine"@.len() == 4);
    reveal_strlit("Tangent");
    assert("Tangent"@.len() == 7);
    reveal_strlit("SquareRoot");
    assert("SquareRoot"@.len() == 10);
    reveal_strlit("NaperianLogarithm");
    assert("NaperianLogarithm"@.len() == 17);
    reveal_strlit("Undefined");
    assert("Undefined"@.len() == 9);
    reveal_strlit("Symbol");
    assert("Symbol"@.len() == 6);
    reveal_strlit("SymbolAbstract");
    assert("SymbolAbstract"@.len() == 14);
    reveal_strlit("Sequence");
    assert("Sequence"@.len() == 8);
    reveal_strlit("Function");
    assert("Function"@.len() == 8);
    reveal_strlit("Constant");
    assert("Constant"@.len() == 8);
    reveal_strlit("BasedInteger");
    assert("BasedInteger"@.len() == 12);
    reveal_strlit("CodePointLayout");
    assert("CodePointLayout"@.len() == 15);
    reveal_strlit("Decimal");
    assert("Decimal"@.len() == 7);
    reveal_strlit("Float");
    assert("Float"@.len() == 5);
    reveal_strlit("Infinity");
    assert("Infinity"@.len() == 8);
    reveal_strlit("Integer");
    assert("Integer"@.len() == 7);
    reveal_strlit("Matrix");
    assert("Matrix"@.len() == 6);
    reveal_strlit("Rational");
    assert("Rational"@.len() == 8);
    reveal_strlit("Unit");
    assert("Unit"@.len() == 4);
}

} // verus!
