use landsurvey::number::{read_double, Double, Sign};

/// What a double makes of a text.
fn by_double(s: &str) -> Double {
    let v: f64 = match s.parse() {
        Ok(v) => v,
        Err(_) => return Double::Malformed,
    };
    if v.is_nan() {
        Double::NotANumber
    } else if v.is_infinite() {
        Double::Infinite { negative: v < 0.0 }
    } else if v == 0.0 {
        Double::Finite { sign: Sign::Zero }
    } else if v < 0.0 {
        Double::Finite { sign: Sign::Negative }
    } else {
        Double::Finite { sign: Sign::Positive }
    }
}

#[test]
fn reads_what_a_double_reads() {
    let texts = "+;-;.;1;1.;.5;-.5;+1.5;1e5;1.e5;1E+5;1e-5;e5;1e;1e+;1.2.3;inf;-INF;Infinity;+infinity;nan;\
        -NaN;infin;1,5; 1;1 ;0x10;1_000;0;-0;000.000;1e308;1e309;-1e309;1.7976931348623157e308;\
        1.7976931348623158e308;1.7976931348623159e308;1e-323;1e-324;2.4703282292062327e-324;\
        2.4703282292062328e-324;3e-324;5e-324;1e99999999999999999999999999;1e-99999999999999999999999999;\
        0e99999999999999999999;--1;+-1;1e--1;\u{661};;0.000000;12345678901234567890123456789012345678901234567890";
    for s in texts.split(';') {
        assert_eq!(read_double(s), by_double(s), "{s:?}");
    }
}

#[test]
fn rounds_exactly_at_the_top_of_the_range() {
    // Half way between the largest double and the next power of two, but for its
    // last digit.
    let digits = "17976931348623158079372897140530341507993413271003782693617377898044496829276475094664901797758720709633028641669288791094655554785194040263065748867150582068190890200070838367627385484581771153176447573027006985557136695962284291481986083493647529271907416844436551070434271155969950809304288017790417449779";
    for last in 0..10 {
        let s = format!("{digits}{last}");
        assert_eq!(read_double(&s), by_double(&s), "{last}");
        let s = format!("-{digits}{last}.99e0");
        assert_eq!(read_double(&s), by_double(&s), "{last}");
    }
    assert_eq!(read_double(&format!("{digits}1")), Double::Finite { sign: Sign::Positive });
    assert_eq!(read_double(&format!("{digits}2")), Double::Infinite { negative: false });
}

#[test]
fn rounds_exactly_at_the_bottom_of_the_range() {
    // Half of the smallest positive double, but for its last digit.
    let digits = "2470328229206232720882843964341106861825299013071623822127928412503377536351043759326499181808179961898982823477228588654633283551779698981993873980053909390631503565951557022639229085839244910518443593180284993653615250031937045767824921936562366986365848075700158576926990370631192827955855133292783433840935197801553124659726357957462276646527282722005637400648549997709659947045402082816622623785739345073633900796776193057750674017632467360096895134053553745851666113422376667860416215968046191446729184030053005753084904876539171138659164623952491262365388187963623937328042389101867234849766823508986338858792562830275599565752445550725518931369083625477918694866799496832404970582102851318545139621383772282614543769341253209859132766723632812";
    for last in 0..10 {
        let s = format!("{digits}{last}e-1075");
        assert_eq!(read_double(&s), by_double(&s), "{last}");
        let s = format!("-{digits}{last}01e-1077");
        assert_eq!(read_double(&s), by_double(&s), "{last}");
    }
    assert_eq!(read_double(&format!("{digits}5e-1075")), Double::Finite { sign: Sign::Zero });
    assert_eq!(read_double(&format!("{digits}501e-1077")), Double::Finite { sign: Sign::Positive });
}
