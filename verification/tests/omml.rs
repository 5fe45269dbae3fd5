use mdquiz::export::docx::omml::{math_to_omml, to_omml, tree_to_omml, Display, MathNode};

/// The MathML the LaTeX-to-MathML converter gives for the expressions these
/// tests write, one `(latex, mathml)` pair each.
fn supplied() -> Vec<(String, String)> {
    let pairs: [(&str, &str); 23] = [
        (r"O(n \log n)", r#"<math><mi>O</mi><mo stretchy="false">(</mo><mi>n</mi><mi>log</mi><mi>n</mi><mo stretchy="false">)</mo></math>"#),
        ("n^2", "<math><msup><mi>n</mi><mn>2</mn></msup></math>"),
        ("a_i", "<math><msub><mi>a</mi><mi>i</mi></msub></math>"),
        ("x_i^2", "<math><msubsup><mi>x</mi><mi>i</mi><mn>2</mn></msubsup></math>"),
        (r"\frac{a}{b}", "<math><mfrac><mi>a</mi><mi>b</mi></mfrac></math>"),
        (r"\binom{n}{k}", r#"<math><mrow><mo>(</mo><mfrac linethickness="0"><mi>n</mi><mi>k</mi></mfrac><mo>)</mo></mrow></math>"#),
        (r"\sqrt{2}", "<math><msqrt><mn>2</mn></msqrt></math>"),
        (r"\sqrt[3]{x}", "<math><mroot><mi>x</mi><mn>3</mn></mroot></math>"),
        (r"\sum_{i=1}^{n} i", "<math><munderover><mo>∑</mo><mrow><mi>i</mi><mo>=</mo><mn>1</mn></mrow><mi>n</mi></munderover><mi>i</mi></math>"),
        (r"\frac{\frac{a}{b}}{c}", "<math><mfrac><mfrac><mi>a</mi><mi>b</mi></mfrac><mi>c</mi></mfrac></math>"),
        (r"\sum^{n} x", "<math><mover><mo>∑</mo><mi>n</mi></mover><mi>x</mi></math>"),
        (r"\bigcup_{i} A", "<math><munder><mo>⋃</mo><mi>i</mi></munder><mi>A</mi></math>"),
        (r"\int_0^1 f", "<math><msubsup><mo>∫</mo><mn>0</mn><mn>1</mn></msubsup><mi>f</mi></math>"),
        (r"\lim_{a}^{b} x", "<math><munderover><mo>lim</mo><mi>a</mi><mi>b</mi></munderover><mi>x</mi></math>"),
        (r"\mathrm{len}", r#"<math><mspace></mspace><mi mathvariant="normal">len</mi></math>"#),
        (r"\left[ x \right]", r#"<math><mrow><mo fence="true" form="prefix">[</mo><mi>x</mi><mo fence="true" form="postfix">]</mo></mrow></math>"#),
        (r"\left[ \sum_{i=1}^{n} x \right]", r#"<math><mrow><mo fence="true" form="prefix">[</mo><munderover><mo>∑</mo><mrow><mi>i</mi><mo>=</mo><mn>1</mn></mrow><mi>n</mi></munderover><mi>x</mi><mo fence="true" form="postfix">]</mo></mrow></math>"#),
        (r"\hat{x}", r#"<math><mover accent="true"><mi>x</mi><mo>^</mo></mover></math>"#),
        (r"\begin{pmatrix} a & b \\ c & d \end{pmatrix}", "<math><mrow><mo>(</mo><mtable><mtr><mtd><mi>a</mi></mtd><mtd><mi>b</mi></mtd></mtr><mtr><mtd><mi>c</mi></mtd><mtd><mi>d</mi></mtd></mtr></mtable><mo>)</mo></mrow></math>"),
        ("a < b", "<math><mi>a</mi><mo>&lt;</mo><mi>b</mi></math>"),
        (r"\begin{array}{c|r} a & b \\ c & d \end{array}", r#"<math><mtable><mtr><mtd style="text-align: center; border-right: 0.06em solid"><mi>a</mi></mtd><mtd style="text-align: right"><mi>b</mi></mtd></mtr><mtr><mtd style="text-align: center; border-right: 0.06em solid"><mi>c</mi></mtd><mtd style="text-align: right"><mi>d</mi></mtd></mtr></mtable></math>"#),
        (r"\begin{array}{cr} a & b \\ c & d \end{array}", r#"<math><mtable><mtr><mtd style="text-align: center"><mi>a</mi></mtd><mtd style="text-align: right"><mi>b</mi></mtd></mtr><mtr><mtd style="text-align: center"><mi>c</mi></mtd><mtd style="text-align: right"><mi>d</mi></mtd></mtr></mtable></math>"#),
        (r"\begin{array}{lr} a & b \end{array}", r#"<math><mtable><mtr><mtd style="text-align: left"><mi>a</mi></mtd><mtd style="text-align: right"><mi>b</mi></mtd></mtr></mtable></math>"#),
    ];
    pairs.iter().map(|(latex, mathml)| ((*latex).to_owned(), (*mathml).to_owned())).collect()
}

/// Convert inline math, expecting success.
fn omml(latex: &str) -> String {
    math_to_omml(latex, Display::Inline, &supplied()).expect("converts")
}

/// The rendered error from math expected to be refused.
fn refused(latex: &str) -> String {
    math_to_omml(latex, Display::Inline, &supplied())
        .expect_err("should be refused")
        .message()
}

#[test]
/// The everyday complexity notation an instructor writes: an upright
/// function name, an italic variable, and parentheses that do not stretch.
fn renders_complexity_notation() {
    let xml = omml(r"O(n \log n)");
    assert!(xml.starts_with("<m:oMath>") && xml.ends_with("</m:oMath>"));
    assert!(xml.contains("<m:t xml:space=\"preserve\">log</m:t>"), "{xml}");
    assert!(
        xml.contains(r#"<m:sty m:val="p"/></m:rPr><m:t xml:space="preserve">log</m:t>"#),
        "{xml}"
    );
    assert!(xml.contains("<m:t xml:space=\"preserve\">n</m:t>"));
}

#[test]
/// Superscripts, subscripts and both together each reach their own OMML
/// construct.
fn renders_scripts() {
    assert!(omml("n^2").contains("<m:sSup>"));
    assert!(omml("a_i").contains("<m:sSub>"));
    assert!(omml("x_i^2").contains("<m:sSubSup>"));
}

#[test]
/// A fraction is a fraction; a binomial is the same construct with the bar
/// switched off.
fn renders_fractions_and_binomials() {
    let frac = omml(r"\frac{a}{b}");
    assert!(frac.contains("<m:f>") && frac.contains("<m:num>") && frac.contains("<m:den>"));
    assert!(!frac.contains("noBar"));
    assert!(omml(r"\binom{n}{k}").contains(r#"<m:type m:val="noBar"/>"#));
}

#[test]
/// A square root hides its degree; an nth root states it.
fn renders_roots() {
    let sqrt = omml(r"\sqrt{2}");
    assert!(sqrt.contains("<m:rad>") && sqrt.contains("degHide"));
    let cube = omml(r"\sqrt[3]{x}");
    assert!(cube.contains("<m:deg>") && !cube.contains("degHide"));
}

#[test]
/// A summation becomes one n-ary object carrying its own limits.
fn renders_summation_as_an_nary() {
    let xml = omml(r"\sum_{i=1}^{n} i");
    assert!(xml.contains("<m:nary>"), "{xml}");
    assert!(xml.contains(r#"<m:chr m:val="∑"/>"#), "{xml}");
    assert!(xml.contains("<m:sub>") && xml.contains("<m:sup>"));
}

#[test]
/// A large operator swallows the expression it applies to.
fn a_large_operator_nests_the_expression_after_it() {
    let xml = omml(r"\sum_{i=1}^{n} i");
    assert!(!xml.contains("<m:e/>"), "empty operand placeholder: {xml}");
    assert!(!xml.contains("<m:e></m:e>"), "empty operand placeholder: {xml}");
    let nary = xml.split("<m:nary>").nth(1).unwrap_or_default();
    let body = nary.split("</m:nary>").next().unwrap_or_default();
    assert!(body.contains(r#"<m:t xml:space="preserve">i</m:t>"#), "{xml}");
}

/// The content of the first `<m:tag>…</m:tag>`.
fn inside<'a>(xml: &'a str, tag: &str) -> &'a str {
    xml.split_once(&format!("<m:{tag}>"))
        .and_then(|(_, rest)| rest.split_once(&format!("</m:{tag}>")))
        .map_or("", |(inner, _)| inner)
}

#[test]
/// Pathologically nested input is refused before anything reads it.
fn absurdly_nested_latex_is_refused_rather_than_crashing() {
    let latex = format!("{}x{}", r"\frac{".repeat(64), "}{1}".repeat(64));
    let error = to_omml(&latex, Display::Inline, "<math><mi>x</mi></math>")
        .expect_err("should be refused")
        .message();
    assert!(error.contains("nested more than"), "{error}");
    assert!(math_to_omml(r"\frac{\frac{a}{b}}{c}", Display::Inline, &supplied()).is_ok());
}

#[test]
/// A one-sided operator hides the slot it has no limit for.
fn a_one_sided_operator_hides_its_empty_slot() {
    let above = omml(r"\sum^{n} x");
    assert!(above.contains(r#"<m:subHide m:val="1"/>"#), "{above}");
    let below = omml(r"\bigcup_{i} A");
    assert!(below.contains(r#"<m:supHide m:val="1"/>"#), "{below}");
    let both = omml(r"\sum_{i=1}^{n} i");
    assert!(both.contains(r#"<m:subHide m:val="0"/>"#), "{both}");
    assert!(both.contains(r#"<m:supHide m:val="0"/>"#), "{both}");
}

#[test]
/// An integral becomes one n-ary object with its limits beside it.
fn an_integral_is_a_large_operator_too() {
    let xml = omml(r"\int_0^1 f");
    assert!(xml.contains("<m:nary>"), "{xml}");
    assert!(xml.contains(r#"<m:chr m:val="∫"/>"#), "{xml}");
    assert!(xml.contains(r#"<m:limLoc m:val="subSup"/>"#), "{xml}");
    assert!(omml(r"\sum_{i=1}^{n} i").contains(r#"<m:limLoc m:val="undOvr"/>"#));
}

#[test]
/// An over/under pair Word cannot express is refused.
fn an_unmappable_over_under_pair_is_refused() {
    let error = refused(r"\lim_{a}^{b} x");
    assert!(error.contains("no Word equivalent"), "{error}");
}

#[test]
/// A zero-width space is not a space.
fn a_zero_width_space_prints_nothing() {
    let xml = omml(r"\mathrm{len}");
    assert!(
        !xml.contains(r#"<m:t xml:space="preserve"> </m:t>"#),
        "a stray space reached the page: {xml}"
    );
}

#[test]
/// A thin fraction rule is still a rule; only an explicit zero is bar-less.
fn a_thin_rule_is_not_a_missing_one() {
    assert!(!omml(r"\frac{a}{b}").contains("noBar"));
    assert!(omml(r"\binom{n}{k}").contains("noBar"));
}

#[test]
/// A single-letter variable is italic and a multi-letter function name is
/// not.
fn a_variable_is_italic_and_a_function_name_is_not() {
    let xml = omml(r"O(n \log n)");
    assert!(
        xml.contains(r#"<m:r><m:t xml:space="preserve">n</m:t></m:r>"#),
        "n lost its italic: {xml}"
    );
    assert!(
        !xml.contains(r#"<m:sty m:val="p"/></m:rPr><m:t xml:space="preserve">n</m:t>"#),
        "n is upright: {xml}"
    );
}

#[test]
/// Fixed-arity parts do not swap.
fn fixed_arity_parts_do_not_swap() {
    let frac = omml(r"\frac{a}{b}");
    assert!(inside(&frac, "num").contains(">a<"), "{frac}");
    assert!(inside(&frac, "den").contains(">b<"), "{frac}");
    let script = omml("x_i^2");
    assert!(inside(&script, "sub").contains(">i<"), "{script}");
    assert!(inside(&script, "sup").contains(">2<"), "{script}");
    let root = omml(r"\sqrt[3]{x}");
    assert!(inside(&root, "deg").contains(">3<"), "{root}");
}

#[test]
/// Delimiters grow with what they hold.
fn delimiters_grow_with_their_content() {
    let binom = omml(r"\binom{n}{k}");
    assert!(binom.contains("<m:d>"), "{binom}");
    assert!(binom.contains(r#"<m:begChr m:val="("/>"#), "{binom}");
    assert!(binom.contains("<m:grow/>"), "{binom}");
    assert!(omml(r"\left[ x \right]").contains(r#"<m:begChr m:val="["/>"#));
}

#[test]
/// A large operator keeps its operand inside delimiters.
fn a_large_operator_keeps_its_operand_inside_delimiters() {
    let xml = omml(r"\left[ \sum_{i=1}^{n} x \right]");
    assert!(!xml.contains("<m:e/>"), "placeholder box: {xml}");
    let nary = inside(&xml, "nary");
    assert!(nary.contains(">x<"), "operand escaped the sigma: {xml}");
}

#[test]
/// An accent is an accent, not a script.
fn renders_accents() {
    let xml = omml(r"\hat{x}");
    assert!(xml.contains("<m:acc>"), "{xml}");
    assert!(xml.contains("<m:chr m:val="), "{xml}");
}

#[test]
/// A matrix becomes an OMML matrix, one row per row.
fn renders_matrices() {
    let xml = omml(r"\begin{pmatrix} a & b \\ c & d \end{pmatrix}");
    assert!(xml.contains("<m:m>"), "{xml}");
    assert_eq!(xml.matches("<m:mr>").count(), 2, "{xml}");
}

#[test]
/// Display math is not wrapped in `m:oMathPara` here.
fn display_math_is_not_set_apart_here() {
    let xml = math_to_omml(r"\frac{a}{b}", Display::Block, &supplied()).expect("converts");
    assert!(xml.starts_with("<m:oMath>"), "{xml}");
    assert!(!xml.contains("oMathPara"), "{xml}");
}

#[test]
/// Text is XML-escaped, so an authored `<` cannot corrupt the document.
fn omml_authored_text_is_escaped() {
    let xml = omml("a < b");
    assert!(xml.contains("&lt;"), "{xml}");
    assert!(!xml.contains("<m:t xml:space=\"preserve\"><"), "{xml}");
}

#[test]
/// LaTeX the converter rejects fails the export, quoting what the author
/// wrote.
fn rejected_latex_is_refused_with_its_source() {
    let error = refused(r"\ce{H2O}");
    assert!(error.contains(r"\ce{H2O}"), "{error}");
    assert!(error.contains("cannot render math"), "{error}");
}

#[test]
/// A `|` column or `\hline` is refused rather than flattened.
fn ruled_tables_are_refused_rather_than_flattened() {
    let error = refused(r"\begin{array}{c|r} a & b \\ c & d \end{array}");
    assert!(error.contains("rules inside an equation"), "{error}");
    assert!(omml(r"\begin{array}{cr} a & b \\ c & d \end{array}").contains("<m:m>"));
}

#[test]
/// Column alignment survives: MathML carries it as CSS, OMML as `m:mcJc`.
fn column_alignment_is_carried_across() {
    let xml = omml(r"\begin{array}{lr} a & b \end{array}");
    assert!(xml.contains(r#"<m:mcJc m:val="left"/>"#), "{xml}");
    assert!(xml.contains(r#"<m:mcJc m:val="right"/>"#), "{xml}");
}

#[test]
/// Hostile input is contained: the export fails, the process does not.
fn a_parser_panic_becomes_an_error() {
    for latex in ["\\char é", "\\symbol é", "\\char \u{0}"] {
        let result = math_to_omml(latex, Display::Inline, &supplied());
        assert!(result.is_err(), "{latex:?} should not have rendered");
    }
}

#[test]
/// MathML that does not parse is refused with the LaTeX quoted.
fn unreadable_mathml_is_refused() {
    let error = to_omml("x", Display::Inline, "<math><mi>x</math>").expect_err("refused").message();
    assert!(error.contains("could not be read"), "{error}");
}

/// A node of a hand-built tree.
fn node(element: bool, name: &str, text: &str, children: Vec<usize>) -> MathNode {
    let text = if text.is_empty() { None } else { Some(text.to_owned()) };
    MathNode { element, name: name.to_owned(), text, attrs: Vec::new(), children }
}

#[test]
/// A read tree converts without going through the reader: `<math><mi>x</mi></math>`.
fn a_read_tree_converts_directly() {
    let nodes = vec![
        node(false, "", "", vec![1]),
        node(true, "math", "", vec![2]),
        node(true, "mi", "x", vec![3]),
        node(false, "", "x", vec![]),
    ];
    let xml = tree_to_omml("x", &nodes).expect("converts");
    assert_eq!(xml, "<m:oMath><m:r><m:t xml:space=\"preserve\">x</m:t></m:r></m:oMath>");
}

#[test]
/// A tree with no element in it, or with an element Word has no form for, is refused.
fn a_tree_without_a_known_element_is_refused() {
    let empty = tree_to_omml("x", &Vec::new()).expect_err("refused").message();
    assert!(empty.contains("could not be read"), "{empty}");
    let nodes = vec![
        node(false, "", "", vec![1]),
        node(true, "math", "", vec![2]),
        node(true, "mfoo", "", vec![]),
    ];
    let error = tree_to_omml("y", &nodes).expect_err("refused").message();
    assert!(error.contains("no Word equivalent for <mfoo>"), "{error}");
}

#[test]
/// An accent whose mark carries no text is refused, not drawn with an empty mark.
fn an_accent_without_a_mark_is_refused() {
    let err = to_omml(
        r"\hat{x}",
        Display::Inline,
        r#"<math><mover accent="true"><mi>x</mi><mo></mo></mover></math>"#,
    )
    .expect_err("no mark");
    assert!(err.message().contains("an accent is missing its mark"), "{}", err.message());
}
