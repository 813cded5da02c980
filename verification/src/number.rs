//! Numbers as they stand in a survey file: decimal texts.
//!
//! A coordinate is a decimal text that a double-precision number stands for in
//! the drawing. This module says, in integer arithmetic alone, which texts such a
//! number can be read from, and whether the number nearest to the text is zero,
//! finite or out of range.

use vstd::arithmetic::div_mod::{lemma_div_denominator, lemma_fundamental_div_mod};
use vstd::arithmetic::power::{
    lemma_pow1, lemma_pow_adds, lemma_pow_distributes, lemma_pow_increases, lemma_pow_positive, pow,
};
use vstd::arithmetic::power2::{
    lemma2_to64, lemma2_to64_rest, lemma_pow2, lemma_pow2_adds, lemma_pow2_pos, lemma_pow2_unfold,
    pow2,
};
use vstd::prelude::*;
use vstd::slice::slice_subrange;

use crate::text::{
    chars_of, exactly, find_char, find_where, first_where, lower_text, lowered, same, string_of,
};

verus! {

/// The sign of a finite number.
#[derive(Debug, Clone, Copy, PartialEq, Eq, Structural)]
pub enum Sign {
    Negative,
    Zero,
    Positive,
}

/// What a text stands for when it is read as a double-precision number.
#[derive(Debug, Clone, Copy, PartialEq, Eq, Structural)]
pub enum Double {
    /// The text is no number.
    Malformed,
    /// One of the spellings of "not a number".
    NotANumber,
    /// An infinity, spelled out or beyond the range of doubles.
    Infinite {
        negative: bool,
    },
    /// A finite number, with the sign that is left after rounding.
    Finite {
        sign: Sign,
    },
}

/// The number that a row of decimal digits stands for.
pub open spec fn number(d: Seq<u8>) -> nat
    decreases d.len(),
{
    if d.len() == 0 {
        0
    } else {
        number(d.drop_last()) * 10 + d.last() as nat
    }
}

/// A row of decimal digits.
pub open spec fn digits_ok(d: Seq<u8>) -> bool {
    forall|i: int| 0 <= i < d.len() ==> #[trigger] d[i] <= 9
}

/// Putting one row of digits after another.
pub proof fn lemma_number_append(a: Seq<u8>, b: Seq<u8>)
    ensures
        number(a + b) == number(a) * pow(10, b.len()) + number(b),
    decreases b.len(),
{
    reveal(pow);
    if b.len() == 0 {
        assert(a + b =~= a);
    } else {
        let c = b.drop_last();
        lemma_number_append(a, c);
        assert((a + b).drop_last() =~= a + c);
        assert((a + b).last() == b.last());
        let x = number(a) as int;
        let y = pow(10, c.len());
        assert(pow(10, b.len()) == 10 * y);
        assert((x * y) * 10 == x * (10 * y)) by (nonlinear_arith);
    }
}

/// A row of `n` digits stays below the `n`-th power of ten.
pub proof fn lemma_number_below(d: Seq<u8>)
    requires
        digits_ok(d),
    ensures
        number(d) < pow(10, d.len()),
    decreases d.len(),
{
    reveal(pow);
    if d.len() > 0 {
        lemma_number_below(d.drop_last());
        assert(pow(10, d.len()) == 10 * pow(10, d.drop_last().len()));
    }
}

/// A row of `n` digits with no leading zero reaches the power of ten below.
pub proof fn lemma_number_above(d: Seq<u8>)
    requires
        d.len() > 0,
        d[0] != 0,
    ensures
        number(d) >= pow(10, (d.len() - 1) as nat),
    decreases d.len(),
{
    reveal(pow);
    if d.len() == 1 {
        assert(d.drop_last() =~= Seq::<u8>::empty());
        assert(number(d.drop_last()) == 0);
    } else {
        lemma_number_above(d.drop_last());
        assert(pow(10, (d.len() - 1) as nat) == 10 * pow(10, (d.len() - 2) as nat));
    }
}

/// A row of digits is worth nothing if and only if every digit is zero.
pub proof fn lemma_number_zero(d: Seq<u8>)
    ensures
        number(d) == 0 <==> (forall|i: int| 0 <= i < d.len() ==> #[trigger] d[i] == 0),
    decreases d.len(),
{
    if d.len() > 0 {
        let c = d.drop_last();
        lemma_number_zero(c);
        if number(d) == 0 {
            assert forall|i: int| 0 <= i < d.len() implies #[trigger] d[i] == 0 by {
                if i < c.len() {
                    assert(c[i] == 0);
                }
            }
        }
        if forall|i: int| 0 <= i < d.len() ==> #[trigger] d[i] == 0 {
            assert forall|i: int| 0 <= i < c.len() implies #[trigger] c[i] == 0 by {
                assert(d[i] == 0);
            }
        }
    }
}

/// Half way from the largest double to the next power of two: what reaches this
/// rounds to infinity.
pub open spec fn overflow_bound() -> int {
    (pow2(54) - 1) * pow2(970)
}

/// Where the bounds of the doubles lie among the powers of ten.
proof fn lemma_powers()
    ensures
        0 < pow(10, 308) <= overflow_bound() < pow(10, 309),
        0 < pow(10, 323) < pow2(1075) < pow(10, 324),
        pow2(54) == 18014398509481984,
{
    lemma_pow1(10);
    lemma_pow_adds(10, 1, 1);
    assert(pow(10, 2) == 100int);
    lemma_pow_adds(10, 2, 2);
    assert(pow(10, 4) == 10000int);
    lemma_pow_adds(10, 4, 4);
    assert(pow(10, 8) == 100000000int);
    lemma_pow_adds(10, 8, 8);
    assert(pow(10, 16) == 10000000000000000int);
    lemma_pow_adds(10, 16, 16);
    assert(pow(10, 32) == 100000000000000000000000000000000int);
    lemma_pow_adds(10, 32, 32);
    assert(pow(10, 64) == 10000000000000000000000000000000000000000000000000000000000000000int);
    lemma_pow_adds(10, 64, 64);
    assert(pow(10, 128) == 100000000000000000000000000000000000000000000000000000000000000000000000000000000000000000000000000000000000000000000000000000000int);
    lemma_pow_adds(10, 128, 128);
    assert(pow(10, 256) == 10000000000000000000000000000000000000000000000000000000000000000000000000000000000000000000000000000000000000000000000000000000000000000000000000000000000000000000000000000000000000000000000000000000000000000000000000000000000000000000000000000000000000000int);
    lemma_pow_adds(10, 256, 32);
    assert(pow(10, 288) == 1000000000000000000000000000000000000000000000000000000000000000000000000000000000000000000000000000000000000000000000000000000000000000000000000000000000000000000000000000000000000000000000000000000000000000000000000000000000000000000000000000000000000000000000000000000000000000000000000int);
    lemma_pow_adds(10, 288, 16);
    assert(pow(10, 304) == 10000000000000000000000000000000000000000000000000000000000000000000000000000000000000000000000000000000000000000000000000000000000000000000000000000000000000000000000000000000000000000000000000000000000000000000000000000000000000000000000000000000000000000000000000000000000000000000000000000000000000000int);
    lemma_pow_adds(10, 304, 4);
    assert(pow(10, 308) == 100000000000000000000000000000000000000000000000000000000000000000000000000000000000000000000000000000000000000000000000000000000000000000000000000000000000000000000000000000000000000000000000000000000000000000000000000000000000000000000000000000000000000000000000000000000000000000000000000000000000000000000int);
    lemma_pow_adds(10, 308, 1);
    assert(pow(10, 309) == 1000000000000000000000000000000000000000000000000000000000000000000000000000000000000000000000000000000000000000000000000000000000000000000000000000000000000000000000000000000000000000000000000000000000000000000000000000000000000000000000000000000000000000000000000000000000000000000000000000000000000000000000int);
    lemma_pow_adds(10, 256, 64);
    assert(pow(10, 320) == 100000000000000000000000000000000000000000000000000000000000000000000000000000000000000000000000000000000000000000000000000000000000000000000000000000000000000000000000000000000000000000000000000000000000000000000000000000000000000000000000000000000000000000000000000000000000000000000000000000000000000000000000000000000int);
    lemma_pow_adds(10, 320, 2);
    assert(pow(10, 322) == 10000000000000000000000000000000000000000000000000000000000000000000000000000000000000000000000000000000000000000000000000000000000000000000000000000000000000000000000000000000000000000000000000000000000000000000000000000000000000000000000000000000000000000000000000000000000000000000000000000000000000000000000000000000000int);
    lemma_pow_adds(10, 322, 1);
    assert(pow(10, 323) == 100000000000000000000000000000000000000000000000000000000000000000000000000000000000000000000000000000000000000000000000000000000000000000000000000000000000000000000000000000000000000000000000000000000000000000000000000000000000000000000000000000000000000000000000000000000000000000000000000000000000000000000000000000000000int);
    lemma_pow_adds(10, 323, 1);
    assert(pow(10, 324) == 1000000000000000000000000000000000000000000000000000000000000000000000000000000000000000000000000000000000000000000000000000000000000000000000000000000000000000000000000000000000000000000000000000000000000000000000000000000000000000000000000000000000000000000000000000000000000000000000000000000000000000000000000000000000000int);
    lemma2_to64();
    lemma2_to64_rest();
    lemma_pow2_adds(64, 64);
    assert(pow2(128) == 340282366920938463463374607431768211456int);
    lemma_pow2_adds(128, 128);
    assert(pow2(256) == 115792089237316195423570985008687907853269984665640564039457584007913129639936int);
    lemma_pow2_adds(256, 256);
    assert(pow2(512) == 13407807929942597099574024998205846127479365820592393377723561443721764030073546976801874298166903427690031858186486050853753882811946569946433649006084096int);
    lemma_pow2_adds(512, 512);
    assert(pow2(1024) == 179769313486231590772930519078902473361797697894230657273430081157732675805500963132708477322407536021120113879871393357658789768814416622492847430639474124377767893424865485276302219601246094119453082952085005768838150682342462881473913110540827237163350510684586298239947245938479716304835356329624224137216int);
    lemma_pow2_adds(512, 256);
    assert(pow2(768) == 1552518092300708935148979488462502555256886017116696611139052038026050952686376886330878408828646477950487730697131073206171580044114814391444287275041181139204454976020849905550265285631598444825262999193716468750892846853816057856int);
    lemma_pow2_adds(768, 128);
    assert(pow2(896) == 528294531135665246352339784916516606518847326036121522127960709026673902556724859474417255887657187894674394993257128678882347559502685537250538978462939576908386683999005084168731517676426441053024232908211188404148028292751561738838396898767036476489538580897737998336int);
    lemma_pow2_adds(896, 64);
    assert(pow2(960) == 9745314011399999080353382387875188310876226857595007526867906457212948690766426102465615065882010259225304916231408668183459169865203094046577987296312653419531277699956473029870789655490053648352799593479218378873685597925394874945746363615468965612827738803104277547081828589991914110976int);
    lemma_pow2_adds(960, 8);
    assert(pow2(968) == 2494800386918399764570465891296048207584314075544321926878184053046514864836205082231197456865794626361678058555240619054965547485491992075923964747856039275400007091188857095646922151805453733978316695930679904991663513068901087986111069085560055196883901133594695052052948119037930012409856int);
    lemma_pow2_adds(968, 2);
    assert(pow2(970) == 9979201547673599058281863565184192830337256302177287707512736212186059459344820328924789827463178505446712234220962476219862189941967968303695858991424157101600028364755428382587688607221814935913266783722719619966654052275604351944444276342240220787535604534378780208211792476151720049639424int);
    lemma_pow2_adds(1024, 32);
    assert(pow2(1056) == 772103322247736428651791941524190166662432288223808740069966728315087660095197093551484618001698015194652854401843307157096133183997320086925557708514169730840749451738610692460887556999562135090788908685580234789131193097780962748024381086918485856402626253175196722230275782071039209488625822100242638638716536487936int);
    lemma_pow2_adds(1056, 16);
    assert(pow2(1072) == 50600563326827654588123836679729326762389162441035529589225339506857584891998836722990095925359281123796769466079202977847452184346448369216753349985184627480379356069141590341116726935523304085309941919618186267140501870856173174654525838912289889085202514128089692388083353653807625633046581877161501565826926935273373696int);
    lemma_pow2_adds(1072, 2);
    assert(pow2(1074) == 202402253307310618352495346718917307049556649764142118356901358027430339567995346891960383701437124495187077864316811911389808737385793476867013399940738509921517424276566361364466907742093216341239767678472745068562007483424692698618103355649159556340810056512358769552333414615230502532186327508646006263307707741093494784int);
    lemma_pow2_adds(1074, 1);
    assert(pow2(1075) == 404804506614621236704990693437834614099113299528284236713802716054860679135990693783920767402874248990374155728633623822779617474771586953734026799881477019843034848553132722728933815484186432682479535356945490137124014966849385397236206711298319112681620113024717539104666829230461005064372655017292012526615415482186989568int);
}

/// The decimal number `m` times ten to the power `e` rounds to a finite double.
pub open spec fn rounds_to_finite(m: nat, e: int) -> bool {
    if e >= 0 {
        m * pow(10, e as nat) < overflow_bound()
    } else {
        m < overflow_bound() * pow(10, (-e) as nat)
    }
}

/// The decimal number `m` times ten to the power `e` rounds to zero: it is not
/// above half of the smallest positive double, which is two to the power -1074.
pub open spec fn rounds_to_zero(m: nat, e: int) -> bool {
    if e >= 0 {
        m == 0
    } else {
        m * pow2(1075) <= pow(10, (-e) as nat)
    }
}

/// Halves a row of digits `k` times and drops the remainders.
fn halved(d: Vec<u8>, k: usize) -> (q: Vec<u8>)
    requires
        digits_ok(d@),
    ensures
        digits_ok(q@),
        q@.len() == d@.len(),
        number(q@) == number(d@) as int / pow2(k as nat) as int,
{
    let mut q = d;
    let mut done: usize = 0;
    proof {
        lemma2_to64();
    }
    while done < k
        invariant
            done <= k,
            digits_ok(q@),
            q@.len() == d@.len(),
            number(q@) == number(d@) as int / pow2(done as nat) as int,
        decreases k - done,
    {
        let ghost before = q@;
        let mut carry: u8 = 0;
        let mut i: usize = 0;
        while i < q.len()
            invariant
                i <= q.len(),
                q@.len() == before.len(),
                carry <= 1,
                digits_ok(before),
                digits_ok(q@),
                forall|j: int| i <= j < q@.len() ==> q@[j] == before[j],
                number(q@.take(i as int)) * 2 + carry == number(before.take(i as int)),
            decreases q.len() - i,
        {
            let ghost old_q = q@;
            let t: u8 = carry * 10 + q[i];
            q.set(i, t / 2);
            carry = t % 2;
            i += 1;
            proof {
                assert(q@.take(i as int).drop_last() =~= old_q.take(i - 1));
                assert(before.take(i as int).drop_last() =~= before.take(i - 1));
            }
        }
        proof {
            assert(q@.take(i as int) =~= q@);
            assert(before.take(i as int) =~= before);
            lemma_pow2_pos(done as nat);
            lemma_div_denominator(number(d@) as int, pow2(done as nat) as int, 2);
            lemma_pow2_unfold((done + 1) as nat);
            assert(pow2(done as nat) * 2 == pow2((done + 1) as nat));
        }
        done += 1;
    }
    q
}

/// Compares a row of digits with a number.
fn below(d: &Vec<u8>, bound: u64) -> (r: bool)
    requires
        digits_ok(d@),
        bound > 0,
    ensures
        r == (number(d@) < bound),
{
    let mut acc: u128 = 0;
    let mut i: usize = 0;
    while i < d.len()
        invariant
            i <= d.len(),
            digits_ok(d@),
            bound > 0,
            acc == number(d@.take(i as int)),
            acc < bound,
        decreases d.len() - i,
    {
        assert(d@.take(i + 1).drop_last() =~= d@.take(i as int));
        acc = acc * 10 + d[i] as u128;
        i += 1;
        if acc >= bound as u128 {
            proof {
                lemma_number_append(d@.take(i as int), d@.skip(i as int));
                assert(d@.take(i as int) + d@.skip(i as int) =~= d@);
                lemma_pow_positive(10, d@.skip(i as int).len());
                let a = number(d@.take(i as int)) as int;
                let y = pow(10, d@.skip(i as int).len());
                assert(a * y >= a) by (nonlinear_arith)
                    requires
                        a >= 0,
                        y >= 1,
                ;
            }
            return false;
        }
    }
    assert(d@.take(i as int) =~= d@);
    true
}

/// How one number stands to another.
#[derive(Clone, Copy, PartialEq, Eq, Structural)]
enum Order {
    Less,
    Same,
    More,
}

spec fn order_of(a: nat, b: nat) -> Order {
    if a < b {
        Order::Less
    } else if a == b {
        Order::Same
    } else {
        Order::More
    }
}

/// Compares two rows of digits of one length.
fn compare(a: &Vec<u8>, b: &Vec<u8>) -> (r: Order)
    requires
        digits_ok(a@),
        digits_ok(b@),
        a@.len() == b@.len(),
    ensures
        r == order_of(number(a@), number(b@)),
{
    let mut r = Order::Same;
    let mut i: usize = 0;
    while i < a.len()
        invariant
            i <= a.len(),
            digits_ok(a@),
            digits_ok(b@),
            a@.len() == b@.len(),
            r == order_of(number(a@.take(i as int)), number(b@.take(i as int))),
        decreases a.len() - i,
    {
        assert(a@.take(i + 1).drop_last() =~= a@.take(i as int));
        assert(b@.take(i + 1).drop_last() =~= b@.take(i as int));
        if r == Order::Same {
            if a[i] < b[i] {
                r = Order::Less;
            } else if a[i] > b[i] {
                r = Order::More;
            }
        }
        i += 1;
    }
    assert(a@.take(i as int) =~= a@);
    assert(b@.take(i as int) =~= b@);
    r
}

/// A row of `len` digits: `lead` zeros, then the digits of `d`, then zeros.
spec fn frame(d: Seq<u8>, lead: nat, len: nat) -> Seq<u8> {
    Seq::new(len, |i: int| if lead <= i < lead + d.len() { d[i - lead] } else { 0u8 })
}

fn framed(d: &[u8], lead: usize, len: usize) -> (r: Vec<u8>)
    ensures
        r@ == frame(d@, lead as nat, len as nat),
{
    let mut r: Vec<u8> = Vec::new();
    let mut i: usize = 0;
    while i < len
        invariant
            i <= len,
            r@ =~= frame(d@, lead as nat, i as nat),
        decreases len - i,
    {
        if lead <= i && i - lead < d.len() {
            r.push(d[i - lead]);
        } else {
            r.push(0);
        }
        i += 1;
    }
    r
}

/// Leading zeros add nothing.
proof fn lemma_leading_zeros(z: Seq<u8>, d: Seq<u8>)
    requires
        forall|i: int| 0 <= i < z.len() ==> #[trigger] z[i] == 0,
    ensures
        number(z + d) == number(d),
{
    lemma_number_append(z, d);
    lemma_number_zero(z);
    let y = pow(10, d.len());
    assert(0 * y == 0);
}

/// A frame that holds all of `d` is `d` times a power of ten.
proof fn lemma_frame_whole(d: Seq<u8>, lead: nat, len: nat)
    requires
        lead + d.len() <= len,
    ensures
        number(frame(d, lead, len)) == number(d) * pow(10, (len - lead - d.len()) as nat),
{
    let f = frame(d, lead, len);
    let z = f.take(lead as int);
    let t = f.skip((lead + d.len()) as int);
    assert(f =~= z + (d + t));
    lemma_leading_zeros(z, d + t);
    lemma_number_append(d, t);
    lemma_number_zero(t);
}

/// A frame that `d` does not fit in holds its first digits.
proof fn lemma_frame_part(d: Seq<u8>, lead: nat, len: nat)
    requires
        lead <= len < lead + d.len(),
        digits_ok(d),
    ensures
        number(d) == number(frame(d, lead, len)) * pow(10, (lead + d.len() - len) as nat) + number(
            d.skip(len - lead),
        ),
        number(d.skip(len - lead)) < pow(10, (lead + d.len() - len) as nat),
{
    let f = frame(d, lead, len);
    let z = f.take(lead as int);
    let a = d.take(len - lead);
    let b = d.skip(len - lead);
    assert(f =~= z + a);
    assert(d =~= a + b);
    lemma_leading_zeros(z, a);
    lemma_number_append(a, b);
    lemma_number_below(b);
}

/// Zero is finite, whatever the power of ten.
pub(crate) proof fn lemma_zero_is_finite()
    ensures
        forall|e: int| #[trigger] rounds_to_finite(0, e),
{
    lemma_powers();
    let b = overflow_bound();
    assert forall|e: int| #[trigger] rounds_to_finite(0, e) by {
        if e >= 0 {
            assert(0 * pow(10, e as nat) == 0);
        } else {
            lemma_pow_positive(10, (-e) as nat);
            let z = pow(10, (-e) as nat);
            assert(0 < b * z) by (nonlinear_arith)
                requires
                    b > 0,
                    z > 0,
            ;
        }
    }
}

/// A number of few digits before the point is finite.
pub(crate) proof fn lemma_small(m: nat, n: nat, e: int)
    requires
        m < pow(10, n),
        n + e <= 308,
    ensures
        rounds_to_finite(m, e),
{
    lemma_powers();
    let b = overflow_bound();
    if e >= 0 {
        lemma_pow_positive(10, e as nat);
        lemma_pow_adds(10, n, e as nat);
        lemma_pow_increases(10, (n + e) as nat, 308);
        let (x, y, z) = (m as int, pow(10, n), pow(10, e as nat));
        assert(x * z < y * z) by (nonlinear_arith)
            requires
                x < y,
                z > 0,
        ;
    } else {
        let k = (-e) as nat;
        lemma_pow_adds(10, 308, k);
        lemma_pow_increases(10, n, 308 + k);
        lemma_pow_positive(10, k);
        let (p, z) = (pow(10, 308), pow(10, k));
        assert(p * z <= b * z) by (nonlinear_arith)
            requires
                p <= b,
                z > 0,
        ;
    }
}

/// A number of many digits before the point is out of range.
pub(crate) proof fn lemma_large(m: nat, n: nat, e: int)
    requires
        n >= 1,
        m >= pow(10, (n - 1) as nat),
        n + e >= 310,
    ensures
        !rounds_to_finite(m, e),
{
    lemma_powers();
    let b = overflow_bound();
    let n1 = (n - 1) as nat;
    if e >= 0 {
        lemma_pow_positive(10, e as nat);
        lemma_pow_adds(10, n1, e as nat);
        lemma_pow_increases(10, 309, (n1 + e) as nat);
        let (x, y, z) = (m as int, pow(10, n1), pow(10, e as nat));
        assert(x * z >= y * z) by (nonlinear_arith)
            requires
                x >= y,
                z > 0,
        ;
    } else {
        let k = (-e) as nat;
        lemma_pow_adds(10, 309, k);
        lemma_pow_increases(10, 309 + k, n1);
        lemma_pow_positive(10, k);
        let (p, z) = (pow(10, 309), pow(10, k));
        assert(p * z >= b * z) by (nonlinear_arith)
            requires
                p >= b,
                z > 0,
        ;
    }
}

/// A number far behind the point is zero.
proof fn lemma_tiny(m: nat, n: nat, e: int)
    requires
        m < pow(10, n),
        n + e <= -324,
    ensures
        rounds_to_zero(m, e),
{
    lemma_powers();
    let k = (-e) as nat;
    lemma_pow_adds(10, n, 324);
    lemma_pow_increases(10, n + 324, k);
    lemma_pow_positive(10, n);
    let (x, y, p, q) = (m as int, pow(10, n), pow2(1075) as int, pow(10, 324));
    assert(x * p <= y * q) by (nonlinear_arith)
        requires
            0 <= x < y,
            0 <= p < q,
    ;
}

/// A number that is not so far behind the point is not zero.
pub(crate) proof fn lemma_not_tiny(m: nat, n: nat, e: int)
    requires
        n >= 1,
        m >= pow(10, (n - 1) as nat),
        n + e >= -322,
    ensures
        !rounds_to_zero(m, e),
{
    lemma_powers();
    let n1 = (n - 1) as nat;
    lemma_pow_positive(10, n1);
    if e < 0 {
        let k = (-e) as nat;
        lemma_pow_adds(10, n1, 323);
        lemma_pow_increases(10, k, n1 + 323);
        let (x, y, p, q) = (m as int, pow(10, n1), pow2(1075) as int, pow(10, 323));
        assert(x * p > y * q) by (nonlinear_arith)
            requires
                x >= y,
                y > 0,
                p > q,
                q > 0,
        ;
    }
}

/// Whether a number with 309 digits before the point is finite.
fn finite_at_edge(d: &[u8], Ghost(e): Ghost<int>) -> (r: bool)
    requires
        digits_ok(d@),
        d@.len() >= 1,
        d@.len() + e == 309,
    ensures
        r == rounds_to_finite(number(d@), e),
{
    let whole = framed(d, 0, 309);
    let ghost w = number(whole@);
    proof {
        lemma_powers();
        lemma_pow2_pos(970);
    }
    let q = halved(whole, 970);
    let r = below(&q, 18014398509481983);
    proof {
        let b = overflow_bound();
        let p = pow2(970) as int;
        let c = pow2(54) - 1;
        lemma_fundamental_div_mod(w as int, p);
        let quo = w as int / p;
        assert((quo < c) == (w < c * p)) by (nonlinear_arith)
            requires
                p > 0,
                w == p * quo + w as int % p,
                0 <= w as int % p < p,
        ;
        assert(r == (w < b));
        let m = number(d@) as int;
        if e >= 0 {
            lemma_frame_whole(d@, 0, 309);
        } else {
            lemma_frame_part(d@, 0, 309);
            let z = pow(10, (-e) as nat);
            let rest = number(d@.skip(309)) as int;
            assert((w < b) == (m < b * z)) by (nonlinear_arith)
                requires
                    m == w * z + rest,
                    0 <= rest < z,
            ;
        }
    }
    r
}

/// Whether a number with 323 zeros right behind the point rounds to zero.
fn zero_at_edge(d: &[u8], Ghost(e): Ghost<int>) -> (r: bool)
    requires
        digits_ok(d@),
        d@.len() >= 1,
        d@.len() + e == -323,
    ensures
        r == rounds_to_zero(number(d@), e),
{
    // Ten to the power 1075, halved 1075 times, is five to the power 1075: the
    // digits of two to the power -1075.
    let mut one: Vec<u8> = Vec::new();
    one.push(1);
    let power = framed(one.as_slice(), 0, 1076);
    proof {
        assert(one@.drop_last() =~= Seq::<u8>::empty());
        assert(number(one@.drop_last()) == 0);
        lemma_frame_whole(one@, 0, 1076);
        assert(1 * pow(10, 1075) == pow(10, 1075));
        lemma_pow2_pos(1075);
        lemma_pow2(1075);
        lemma_pow_distributes(2, 5, 1075);
    }
    let half = halved(power, 1075);
    let ghost p = pow2(1075) as int;
    let ghost f = number(half@) as int;
    proof {
        let x = pow(5, 1075);
        assert((p * x) / p == x) by (nonlinear_arith)
            requires
                p > 0,
        ;
        assert(f * p == pow(10, 1075)) by (nonlinear_arith)
            requires
                f == x,
                p * x == pow(10, 1075),
        ;
    }
    let lead = framed(d, 324, 1076);
    let order = compare(&lead, &half);
    let ghost a = number(lead@) as int;
    let ghost m = number(d@) as int;
    let ghost n = d@.len() as int;
    if d.len() <= 752 {
        proof {
            lemma_frame_whole(d@, 324, 1076);
            let k = (752 - n) as nat;
            let z = pow(10, k);
            lemma_pow_positive(10, k);
            lemma_pow_adds(10, (n + 323) as nat, k);
            let t = pow(10, (n + 323) as nat);
            assert((a <= f) == (m * p <= t)) by (nonlinear_arith)
                requires
                    a == m * z,
                    f * p == t * z,
                    z > 0,
                    p > 0,
            ;
        }
        order != Order::More
    } else {
        let rest = slice_subrange(d, 752, d.len());
        let mut i: usize = 0;
        let mut nothing = true;
        while i < rest.len()
            invariant
                i <= rest.len(),
                nothing == (forall|j: int| 0 <= j < i ==> #[trigger] rest@[j] == 0),
            decreases rest.len() - i,
        {
            if rest[i] != 0 {
                nothing = false;
            }
            i += 1;
        }
        proof {
            lemma_frame_part(d@, 324, 1076);
            assert(rest@ =~= d@.skip(752));
            lemma_number_zero(rest@);
            let z = pow(10, (n - 752) as nat);
            let s = number(rest@) as int;
            lemma_pow_adds(10, 1075, (n - 752) as nat);
            let t = pow(10, (n + 323) as nat);
            assert((m * p <= t) == (a < f || (a == f && s == 0))) by (nonlinear_arith)
                requires
                    m == a * z + s,
                    0 <= s < z,
                    (f * p) * z == t,
                    p > 0,
            ;
        }
        order == Order::Less || (order == Order::Same && nothing)
    }
}

/// A stand-in for an exponent: the exponent itself, or as far out as it is.
spec fn stands_for(r: i128, e: int) -> bool {
    &&& -0x10_0000_0000_0000_0000_0000 < r < 0x10_0000_0000_0000_0000_0000
    &&& r == e || (e >= 0x4_0000_0000_0000_0000 && r >= 0x4_0000_0000_0000_0000) || (e
        <= -0x4_0000_0000_0000_0000 && r <= -0x4_0000_0000_0000_0000)
}

/// Whether a row of digits times ten to the power `e` rounds to a finite double,
/// and whether it rounds to zero.
fn rounding(d: &Vec<u8>, r: i128, Ghost(e): Ghost<int>) -> (out: (bool, bool))
    requires
        digits_ok(d@),
        stands_for(r, e),
    ensures
        out.0 == rounds_to_finite(number(d@), e),
        out.1 == rounds_to_zero(number(d@), e),
{
    let mut lead: usize = 0;
    while lead < d.len() && d[lead] == 0
        invariant
            lead <= d.len(),
            forall|j: int| 0 <= j < lead ==> #[trigger] d@[j] == 0,
        decreases d.len() - lead,
    {
        lead += 1;
    }
    let s = slice_subrange(d.as_slice(), lead, d.len());
    proof {
        assert(d@ =~= d@.take(lead as int) + s@);
        lemma_leading_zeros(d@.take(lead as int), s@);
        lemma_powers();
    }
    if lead == d.len() {
        proof {
            lemma_number_zero(s@);
            lemma_zero_is_finite();
            assert(rounds_to_finite(0, e));
            if e < 0 {
                lemma_pow_positive(10, (-e) as nat);
            }
        }
        return (true, true);
    }
    let n: i128 = s.len() as i128;
    let ghost m = number(s@);
    proof {
        lemma_number_below(s@);
        lemma_number_above(s@);
    }
    let a: i128 = n + r;
    if a >= 310 {
        proof {
            lemma_large(m, s@.len(), e);
            lemma_not_tiny(m, s@.len(), e);
        }
        (false, false)
    } else if a <= -324 {
        proof {
            lemma_small(m, s@.len(), e);
            lemma_tiny(m, s@.len(), e);
        }
        (true, true)
    } else if a == 309 {
        proof {
            lemma_not_tiny(m, s@.len(), e);
        }
        (finite_at_edge(s, Ghost(e)), false)
    } else if a == -323 {
        proof {
            lemma_small(m, s@.len(), e);
        }
        (true, zero_at_edge(s, Ghost(e)))
    } else {
        proof {
            lemma_small(m, s@.len(), e);
            lemma_not_tiny(m, s@.len(), e);
        }
        (true, false)
    }
}

/// A decimal digit.
pub open spec fn is_digit(c: char) -> bool {
    '0' <= c <= '9'
}

/// A text of digits alone.
pub open spec fn all_digits(s: Seq<char>) -> bool {
    forall|i: int| 0 <= i < s.len() ==> is_digit(#[trigger] s[i])
}

/// The digits that a text of digits is written in.
pub open spec fn digits(s: Seq<char>) -> Seq<u8> {
    s.map_values(|c: char| (c as u8 - '0' as u8) as u8)
}

/// A text that begins with a minus sign.
pub open spec fn is_negative(s: Seq<char>) -> bool {
    s.len() > 0 && s[0] == '-'
}

/// The text behind an optional sign.
pub open spec fn unsigned(s: Seq<char>) -> Seq<char> {
    if s.len() > 0 && (s[0] == '-' || s[0] == '+') {
        s.skip(1)
    } else {
        s
    }
}

/// The predicate "is the mark before an exponent".
pub open spec fn exponent_mark() -> spec_fn(char) -> bool {
    |c: char| c == 'e' || c == 'E'
}

/// The exponent that a text stands for: an optional sign, then digits.
pub open spec fn exponent_of(s: Seq<char>) -> Option<int> {
    let d = unsigned(s);
    if d.len() == 0 || !all_digits(d) {
        None
    } else if is_negative(s) {
        Some(-number(digits(d)))
    } else {
        Some(number(digits(d)) as int)
    }
}

/// The part of a decimal text before its exponent.
pub open spec fn significand(s: Seq<char>) -> Seq<char> {
    s.take(first_where(s, exponent_mark()))
}

/// The digits of a significand before its point.
pub open spec fn whole_part(m: Seq<char>) -> Seq<char> {
    m.take(first_where(m, exactly('.')))
}

/// The digits of a significand behind its point.
pub open spec fn fraction_part(m: Seq<char>) -> Seq<char> {
    let q = first_where(m, exactly('.'));
    if q < m.len() {
        m.skip(q + 1)
    } else {
        Seq::empty()
    }
}

/// The number that an unsigned decimal text stands for, as a whole number and a
/// power of ten: digits, at most one point among them, then an optional exponent.
pub open spec fn decimal_of(s: Seq<char>) -> Option<(nat, int)> {
    let p = first_where(s, exponent_mark());
    let m = significand(s);
    let d = whole_part(m) + fraction_part(m);
    let shift = fraction_part(m).len() as int;
    if d.len() == 0 || !all_digits(d) {
        None
    } else if p == s.len() {
        Some((number(digits(d)), -shift))
    } else {
        match exponent_of(s.skip(p + 1)) {
            Some(x) => Some((number(digits(d)), x - shift)),
            None => None,
        }
    }
}

/// What a text stands for as a double: the number nearest to the decimal number
/// that it spells, or one of the words for what is no finite number.
pub open spec fn double_of(s: Seq<char>) -> Double {
    let negative = is_negative(s);
    let body = unsigned(s);
    if lower_text(body) == "inf"@ || lower_text(body) == "infinity"@ {
        Double::Infinite { negative }
    } else if lower_text(body) == "nan"@ {
        Double::NotANumber
    } else {
        match decimal_of(body) {
            None => Double::Malformed,
            Some((m, e)) => if !rounds_to_finite(m, e) {
                Double::Infinite { negative }
            } else if rounds_to_zero(m, e) {
                Double::Finite { sign: Sign::Zero }
            } else if negative {
                Double::Finite { sign: Sign::Negative }
            } else {
                Double::Finite { sign: Sign::Positive }
            },
        }
    }
}

/// A text that a finite double can be read from.
pub open spec fn is_finite(s: Seq<char>) -> bool {
    double_of(s) is Finite
}

/// A text that a double above zero can be read from.
pub open spec fn is_positive(s: Seq<char>) -> bool {
    ||| double_of(s) == (Double::Infinite { negative: false })
    ||| double_of(s) == (Double::Finite { sign: Sign::Positive })
}

/// Reads a text of digits.
fn digits_in(s: &[char]) -> (r: Option<Vec<u8>>)
    ensures
        match r {
            Some(d) => all_digits(s@) && d@ == digits(s@) && digits_ok(d@),
            None => !all_digits(s@),
        },
{
    let mut d: Vec<u8> = Vec::new();
    let mut i: usize = 0;
    while i < s.len()
        invariant
            i <= s.len(),
            all_digits(s@.take(i as int)),
            d@ =~= digits(s@.take(i as int)),
            digits_ok(d@),
        decreases s.len() - i,
    {
        let c = s[i];
        if !('0' <= c && c <= '9') {
            assert(!is_digit(s@[i as int]));
            return None;
        }
        d.push(c as u8 - 48);
        i += 1;
        proof {
            let t = s@.take(i as int);
            assert forall|j: int| 0 <= j < t.len() implies is_digit(#[trigger] t[j]) by {
                if j < i - 1 {
                    assert(is_digit(s@.take(i - 1)[j]));
                }
            }
        }
    }
    assert(s@.take(i as int) =~= s@);
    Some(d)
}

/// Adds up a row of digits as long as the sum matters.
fn capped(d: &Vec<u8>) -> (r: i128)
    requires
        digits_ok(d@),
    ensures
        0 <= r < 1_000_000_000_000_000_000_010,
        r == number(d@) || (r >= 100_000_000_000_000_000_000 && number(d@)
            >= 100_000_000_000_000_000_000),
{
    let mut acc: i128 = 0;
    let mut i: usize = 0;
    while i < d.len()
        invariant
            i <= d.len(),
            digits_ok(d@),
            0 <= acc < 1_000_000_000_000_000_000_010,
            acc == number(d@.take(i as int)) || (acc >= 100_000_000_000_000_000_000 && number(
                d@.take(i as int),
            ) >= 100_000_000_000_000_000_000),
        decreases d.len() - i,
    {
        assert(d@.take(i + 1).drop_last() =~= d@.take(i as int));
        if acc < 100_000_000_000_000_000_000 {
            acc = acc * 10 + d[i] as i128;
        }
        i += 1;
    }
    assert(d@.take(i as int) =~= d@);
    acc
}

/// Cuts an optional sign off a text.
fn unsigned_part(s: &[char]) -> (r: &[char])
    ensures
        r@ == unsigned(s@),
{
    if s.len() > 0 && (s[0] == '-' || s[0] == '+') {
        slice_subrange(s, 1, s.len())
    } else {
        assert(s@.subrange(0, s@.len() as int) =~= s@);
        s
    }
}

/// Reads an unsigned decimal text: whether it rounds to a finite double, and
/// whether it rounds to zero.
fn decimal_rounding(s: &[char]) -> (r: Option<(bool, bool)>)
    ensures
        match (r, decimal_of(s@)) {
            (Some((finite, zero)), Some((m, e))) => finite == rounds_to_finite(m, e) && zero
                == rounds_to_zero(m, e),
            (None, None) => true,
            _ => false,
        },
{
    let p = find_where(
        s,
        |c: char| -> (b: bool) ensures b == (c == 'e' || c == 'E') { c == 'e' || c == 'E' },
        Ghost(exponent_mark()),
    );
    let m = slice_subrange(s, 0, p);
    let q = find_char(m, '.');
    let mut all: Vec<char> = Vec::new();
    let mut i: usize = 0;
    while i < m.len()
        invariant
            i <= m.len(),
            q <= m.len(),
            all@ =~= m@.take(if i <= q { i as int } else { q as int }) + m@.subrange(
                if i <= q { i as int } else { q + 1 },
                i as int,
            ),
        decreases m.len() - i,
    {
        if i != q {
            all.push(m[i]);
        }
        i += 1;
    }
    let shift: usize = if q < m.len() {
        m.len() - q - 1
    } else {
        0
    };
    proof {
        assert(m@ =~= significand(s@));
        assert(all@ =~= whole_part(m@) + fraction_part(m@));
    }
    let d = match digits_in(all.as_slice()) {
        Some(d) => d,
        None => return None,
    };
    if d.len() == 0 {
        return None;
    }
    if p == s.len() {
        return Some(rounding(&d, -(shift as i128), Ghost(-(shift as int))));
    }
    let tail = slice_subrange(s, p + 1, s.len());
    let x = match digits_in(unsigned_part(tail)) {
        Some(x) => x,
        None => return None,
    };
    if x.len() == 0 {
        return None;
    }
    let size = capped(&x);
    if tail.len() > 0 && tail[0] == '-' {
        Some(rounding(&d, -size - (shift as i128), Ghost(-number(x@) - shift)))
    } else {
        Some(rounding(&d, size - (shift as i128), Ghost(number(x@) - shift)))
    }
}

/// Reads a text as a double, as far as that can be told without one.
pub fn read_double(text: &str) -> (r: Double)
    ensures
        r == double_of(text@),
{
    let v = chars_of(text);
    let s = v.as_slice();
    let negative = s.len() > 0 && s[0] == '-';
    let body = unsigned_part(s);
    let word = string_of(lowered(body).as_slice());
    if same(word.as_str(), "inf") || same(word.as_str(), "infinity") {
        return Double::Infinite { negative };
    }
    if same(word.as_str(), "nan") {
        return Double::NotANumber;
    }
    match decimal_rounding(body) {
        None => Double::Malformed,
        Some((finite, zero)) => if !finite {
            Double::Infinite { negative }
        } else if zero {
            Double::Finite { sign: Sign::Zero }
        } else if negative {
            Double::Finite { sign: Sign::Negative }
        } else {
            Double::Finite { sign: Sign::Positive }
        },
    }
}

} // verus!
