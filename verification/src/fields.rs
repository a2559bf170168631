//! The field names that error values carry: one specification constant
//! and one executable builder for each, plus indexed-name builders.
use crate::num::{dec_nat, push_dec_u64};
use vstd::prelude::*;

verus! {

/// `IDBMUP(1)`
pub open spec fn name_idbmup_1() -> Seq<u8> {
    seq![73u8, 68u8, 66u8, 77u8, 85u8, 80u8, 40u8, 49u8, 41u8]
}

pub fn mk_name_idbmup_1() -> (r: Vec<u8>)
    ensures
        r@ == name_idbmup_1(),
{
    let mut v: Vec<u8> = Vec::new();
    v.push(73);
    v.push(68);
    v.push(66);
    v.push(77);
    v.push(85);
    v.push(80);
    v.push(40);
    v.push(49);
    v.push(41);
    proof {
        assert(v@ =~= name_idbmup_1());
    }
    v
}

/// `IDBMUP(2)`
pub open spec fn name_idbmup_2() -> Seq<u8> {
    seq![73u8, 68u8, 66u8, 77u8, 85u8, 80u8, 40u8, 50u8, 41u8]
}

pub fn mk_name_idbmup_2() -> (r: Vec<u8>)
    ensures
        r@ == name_idbmup_2(),
{
    let mut v: Vec<u8> = Vec::new();
    v.push(73);
    v.push(68);
    v.push(66);
    v.push(77);
    v.push(85);
    v.push(80);
    v.push(40);
    v.push(50);
    v.push(41);
    proof {
        assert(v@ =~= name_idbmup_2());
    }
    v
}

/// `EBMUP(1)`
pub open spec fn name_ebmup_1() -> Seq<u8> {
    seq![69u8, 66u8, 77u8, 85u8, 80u8, 40u8, 49u8, 41u8]
}

pub fn mk_name_ebmup_1() -> (r: Vec<u8>)
    ensures
        r@ == name_ebmup_1(),
{
    let mut v: Vec<u8> = Vec::new();
    v.push(69);
    v.push(66);
    v.push(77);
    v.push(85);
    v.push(80);
    v.push(40);
    v.push(49);
    v.push(41);
    proof {
        assert(v@ =~= name_ebmup_1());
    }
    v
}

/// `EBMUP(2)`
pub open spec fn name_ebmup_2() -> Seq<u8> {
    seq![69u8, 66u8, 77u8, 85u8, 80u8, 40u8, 50u8, 41u8]
}

pub fn mk_name_ebmup_2() -> (r: Vec<u8>)
    ensures
        r@ == name_ebmup_2(),
{
    let mut v: Vec<u8> = Vec::new();
    v.push(69);
    v.push(66);
    v.push(77);
    v.push(85);
    v.push(80);
    v.push(40);
    v.push(50);
    v.push(41);
    proof {
        assert(v@ =~= name_ebmup_2());
    }
    v
}

/// `PDFGUP(1)`
pub open spec fn name_pdfgup_1() -> Seq<u8> {
    seq![80u8, 68u8, 70u8, 71u8, 85u8, 80u8, 40u8, 49u8, 41u8]
}

pub fn mk_name_pdfgup_1() -> (r: Vec<u8>)
    ensures
        r@ == name_pdfgup_1(),
{
    let mut v: Vec<u8> = Vec::new();
    v.push(80);
    v.push(68);
    v.push(70);
    v.push(71);
    v.push(85);
    v.push(80);
    v.push(40);
    v.push(49);
    v.push(41);
    proof {
        assert(v@ =~= name_pdfgup_1());
    }
    v
}

/// `PDFGUP(2)`
pub open spec fn name_pdfgup_2() -> Seq<u8> {
    seq![80u8, 68u8, 70u8, 71u8, 85u8, 80u8, 40u8, 50u8, 41u8]
}

pub fn mk_name_pdfgup_2() -> (r: Vec<u8>)
    ensures
        r@ == name_pdfgup_2(),
{
    let mut v: Vec<u8> = Vec::new();
    v.push(80);
    v.push(68);
    v.push(70);
    v.push(71);
    v.push(85);
    v.push(80);
    v.push(40);
    v.push(50);
    v.push(41);
    proof {
        assert(v@ =~= name_pdfgup_2());
    }
    v
}

/// `PDFSUP(1)`
pub open spec fn name_pdfsup_1() -> Seq<u8> {
    seq![80u8, 68u8, 70u8, 83u8, 85u8, 80u8, 40u8, 49u8, 41u8]
}

pub fn mk_name_pdfsup_1() -> (r: Vec<u8>)
    ensures
        r@ == name_pdfsup_1(),
{
    let mut v: Vec<u8> = Vec::new();
    v.push(80);
    v.push(68);
    v.push(70);
    v.push(83);
    v.push(85);
    v.push(80);
    v.push(40);
    v.push(49);
    v.push(41);
    proof {
        assert(v@ =~= name_pdfsup_1());
    }
    v
}

/// `PDFSUP(2)`
pub open spec fn name_pdfsup_2() -> Seq<u8> {
    seq![80u8, 68u8, 70u8, 83u8, 85u8, 80u8, 40u8, 50u8, 41u8]
}

pub fn mk_name_pdfsup_2() -> (r: Vec<u8>)
    ensures
        r@ == name_pdfsup_2(),
{
    let mut v: Vec<u8> = Vec::new();
    v.push(80);
    v.push(68);
    v.push(70);
    v.push(83);
    v.push(85);
    v.push(80);
    v.push(40);
    v.push(50);
    v.push(41);
    proof {
        assert(v@ =~= name_pdfsup_2());
    }
    v
}

/// `IDWTUP`
pub open spec fn name_idwtup() -> Seq<u8> {
    seq![73u8, 68u8, 87u8, 84u8, 85u8, 80u8]
}

pub fn mk_name_idwtup() -> (r: Vec<u8>)
    ensures
        r@ == name_idwtup(),
{
    let mut v: Vec<u8> = Vec::new();
    v.push(73);
    v.push(68);
    v.push(87);
    v.push(84);
    v.push(85);
    v.push(80);
    proof {
        assert(v@ =~= name_idwtup());
    }
    v
}

/// `NPRUP`
pub open spec fn name_nprup() -> Seq<u8> {
    seq![78u8, 80u8, 82u8, 85u8, 80u8]
}

pub fn mk_name_nprup() -> (r: Vec<u8>)
    ensures
        r@ == name_nprup(),
{
    let mut v: Vec<u8> = Vec::new();
    v.push(78);
    v.push(80);
    v.push(82);
    v.push(85);
    v.push(80);
    proof {
        assert(v@ =~= name_nprup());
    }
    v
}

/// `NUP`
pub open spec fn name_nup() -> Seq<u8> {
    seq![78u8, 85u8, 80u8]
}

pub fn mk_name_nup() -> (r: Vec<u8>)
    ensures
        r@ == name_nup(),
{
    let mut v: Vec<u8> = Vec::new();
    v.push(78);
    v.push(85);
    v.push(80);
    proof {
        assert(v@ =~= name_nup());
    }
    v
}

/// `IDRUP`
pub open spec fn name_idrup() -> Seq<u8> {
    seq![73u8, 68u8, 82u8, 85u8, 80u8]
}

pub fn mk_name_idrup() -> (r: Vec<u8>)
    ensures
        r@ == name_idrup(),
{
    let mut v: Vec<u8> = Vec::new();
    v.push(73);
    v.push(68);
    v.push(82);
    v.push(85);
    v.push(80);
    proof {
        assert(v@ =~= name_idrup());
    }
    v
}

/// `XWGTUP`
pub open spec fn name_xwgtup() -> Seq<u8> {
    seq![88u8, 87u8, 71u8, 84u8, 85u8, 80u8]
}

pub fn mk_name_xwgtup() -> (r: Vec<u8>)
    ensures
        r@ == name_xwgtup(),
{
    let mut v: Vec<u8> = Vec::new();
    v.push(88);
    v.push(87);
    v.push(71);
    v.push(84);
    v.push(85);
    v.push(80);
    proof {
        assert(v@ =~= name_xwgtup());
    }
    v
}

/// `SCALUP`
pub open spec fn name_scalup() -> Seq<u8> {
    seq![83u8, 67u8, 65u8, 76u8, 85u8, 80u8]
}

pub fn mk_name_scalup() -> (r: Vec<u8>)
    ensures
        r@ == name_scalup(),
{
    let mut v: Vec<u8> = Vec::new();
    v.push(83);
    v.push(67);
    v.push(65);
    v.push(76);
    v.push(85);
    v.push(80);
    proof {
        assert(v@ =~= name_scalup());
    }
    v
}

/// `AQEDUP`
pub open spec fn name_aqedup() -> Seq<u8> {
    seq![65u8, 81u8, 69u8, 68u8, 85u8, 80u8]
}

pub fn mk_name_aqedup() -> (r: Vec<u8>)
    ensures
        r@ == name_aqedup(),
{
    let mut v: Vec<u8> = Vec::new();
    v.push(65);
    v.push(81);
    v.push(69);
    v.push(68);
    v.push(85);
    v.push(80);
    proof {
        assert(v@ =~= name_aqedup());
    }
    v
}

/// `AQCDUP`
pub open spec fn name_aqcdup() -> Seq<u8> {
    seq![65u8, 81u8, 67u8, 68u8, 85u8, 80u8]
}

pub fn mk_name_aqcdup() -> (r: Vec<u8>)
    ensures
        r@ == name_aqcdup(),
{
    let mut v: Vec<u8> = Vec::new();
    v.push(65);
    v.push(81);
    v.push(67);
    v.push(68);
    v.push(85);
    v.push(80);
    proof {
        assert(v@ =~= name_aqcdup());
    }
    v
}

/// `XSECUP`
pub open spec fn word_xsecup() -> Seq<u8> {
    seq![88u8, 83u8, 69u8, 67u8, 85u8, 80u8]
}

pub fn mk_word_xsecup() -> (r: Vec<u8>)
    ensures
        r@ == word_xsecup(),
{
    let mut v: Vec<u8> = Vec::new();
    v.push(88);
    v.push(83);
    v.push(69);
    v.push(67);
    v.push(85);
    v.push(80);
    proof {
        assert(v@ =~= word_xsecup());
    }
    v
}

/// `XERRUP`
pub open spec fn word_xerrup() -> Seq<u8> {
    seq![88u8, 69u8, 82u8, 82u8, 85u8, 80u8]
}

pub fn mk_word_xerrup() -> (r: Vec<u8>)
    ensures
        r@ == word_xerrup(),
{
    let mut v: Vec<u8> = Vec::new();
    v.push(88);
    v.push(69);
    v.push(82);
    v.push(82);
    v.push(85);
    v.push(80);
    proof {
        assert(v@ =~= word_xerrup());
    }
    v
}

/// `XMAXUP`
pub open spec fn word_xmaxup() -> Seq<u8> {
    seq![88u8, 77u8, 65u8, 88u8, 85u8, 80u8]
}

pub fn mk_word_xmaxup() -> (r: Vec<u8>)
    ensures
        r@ == word_xmaxup(),
{
    let mut v: Vec<u8> = Vec::new();
    v.push(88);
    v.push(77);
    v.push(65);
    v.push(88);
    v.push(85);
    v.push(80);
    proof {
        assert(v@ =~= word_xmaxup());
    }
    v
}

/// `LPRUP`
pub open spec fn word_lprup() -> Seq<u8> {
    seq![76u8, 80u8, 82u8, 85u8, 80u8]
}

pub fn mk_word_lprup() -> (r: Vec<u8>)
    ensures
        r@ == word_lprup(),
{
    let mut v: Vec<u8> = Vec::new();
    v.push(76);
    v.push(80);
    v.push(82);
    v.push(85);
    v.push(80);
    proof {
        assert(v@ =~= word_lprup());
    }
    v
}

/// `IDUP`
pub open spec fn word_idup() -> Seq<u8> {
    seq![73u8, 68u8, 85u8, 80u8]
}

pub fn mk_word_idup() -> (r: Vec<u8>)
    ensures
        r@ == word_idup(),
{
    let mut v: Vec<u8> = Vec::new();
    v.push(73);
    v.push(68);
    v.push(85);
    v.push(80);
    proof {
        assert(v@ =~= word_idup());
    }
    v
}

/// `ISTUP`
pub open spec fn word_istup() -> Seq<u8> {
    seq![73u8, 83u8, 84u8, 85u8, 80u8]
}

pub fn mk_word_istup() -> (r: Vec<u8>)
    ensures
        r@ == word_istup(),
{
    let mut v: Vec<u8> = Vec::new();
    v.push(73);
    v.push(83);
    v.push(84);
    v.push(85);
    v.push(80);
    proof {
        assert(v@ =~= word_istup());
    }
    v
}

/// `MOTHUP`
pub open spec fn word_mothup() -> Seq<u8> {
    seq![77u8, 79u8, 84u8, 72u8, 85u8, 80u8]
}

pub fn mk_word_mothup() -> (r: Vec<u8>)
    ensures
        r@ == word_mothup(),
{
    let mut v: Vec<u8> = Vec::new();
    v.push(77);
    v.push(79);
    v.push(84);
    v.push(72);
    v.push(85);
    v.push(80);
    proof {
        assert(v@ =~= word_mothup());
    }
    v
}

/// `ICOLUP`
pub open spec fn word_icolup() -> Seq<u8> {
    seq![73u8, 67u8, 79u8, 76u8, 85u8, 80u8]
}

pub fn mk_word_icolup() -> (r: Vec<u8>)
    ensures
        r@ == word_icolup(),
{
    let mut v: Vec<u8> = Vec::new();
    v.push(73);
    v.push(67);
    v.push(79);
    v.push(76);
    v.push(85);
    v.push(80);
    proof {
        assert(v@ =~= word_icolup());
    }
    v
}

/// `PUP`
pub open spec fn word_pup() -> Seq<u8> {
    seq![80u8, 85u8, 80u8]
}

pub fn mk_word_pup() -> (r: Vec<u8>)
    ensures
        r@ == word_pup(),
{
    let mut v: Vec<u8> = Vec::new();
    v.push(80);
    v.push(85);
    v.push(80);
    proof {
        assert(v@ =~= word_pup());
    }
    v
}

/// `VTIMUP`
pub open spec fn word_vtimup() -> Seq<u8> {
    seq![86u8, 84u8, 73u8, 77u8, 85u8, 80u8]
}

pub fn mk_word_vtimup() -> (r: Vec<u8>)
    ensures
        r@ == word_vtimup(),
{
    let mut v: Vec<u8> = Vec::new();
    v.push(86);
    v.push(84);
    v.push(73);
    v.push(77);
    v.push(85);
    v.push(80);
    proof {
        assert(v@ =~= word_vtimup());
    }
    v
}

/// `SPINUP`
pub open spec fn word_spinup() -> Seq<u8> {
    seq![83u8, 80u8, 73u8, 78u8, 85u8, 80u8]
}

pub fn mk_word_spinup() -> (r: Vec<u8>)
    ensures
        r@ == word_spinup(),
{
    let mut v: Vec<u8> = Vec::new();
    v.push(83);
    v.push(80);
    v.push(73);
    v.push(78);
    v.push(85);
    v.push(80);
    proof {
        assert(v@ =~= word_spinup());
    }
    v
}

/// A field name with one index: `BASE(i)`.
pub open spec fn field_name1(base: Seq<u8>, idx: int) -> Seq<u8> {
    base + seq![40u8] + dec_nat(idx) + seq![41u8]
}

/// A field name with two indices: `BASE(i, j)`.
pub open spec fn field_name2(base: Seq<u8>, idx: int, sub: int) -> Seq<u8> {
    base + seq![40u8] + dec_nat(idx) + seq![44u8, 32u8] + dec_nat(sub) + seq![41u8]
}

pub fn make_name1(base: &[u8], idx: u64) -> (r: Vec<u8>)
    ensures
        r@ == field_name1(base@, idx as int),
{
    let mut v: Vec<u8> = Vec::new();
    crate::syntax::push_all(&mut v, base);
    v.push(40);
    push_dec_u64(idx, &mut v);
    v.push(41);
    proof {
        assert(v@ =~= field_name1(base@, idx as int));
    }
    v
}

pub fn make_name2(base: &[u8], idx: u64, sub: u64) -> (r: Vec<u8>)
    ensures
        r@ == field_name2(base@, idx as int, sub as int),
{
    let mut v: Vec<u8> = Vec::new();
    crate::syntax::push_all(&mut v, base);
    v.push(40);
    push_dec_u64(idx, &mut v);
    v.push(44);
    v.push(32);
    push_dec_u64(sub, &mut v);
    v.push(41);
    proof {
        assert(v@ =~= field_name2(base@, idx as int, sub as int));
    }
    v
}

} // verus!
