use vstd::prelude::*;
use crate::keys::clone_bytes;

verus! {

/// One dealer's contribution to one polynomial, as posted on the ledger:
/// the encrypted ciphertexts, commitments and proofs in serialized form.
/// The pipeline never looks inside; decryption and verification happen in
/// the cryptographic layer outside the library.
#[derive(Clone)]
pub struct Dealing {
    pub bytes: Vec<u8>,
}

impl View for Dealing {
    type V = Seq<u8>;

    open spec fn view(&self) -> Seq<u8> {
        self.bytes@
    }
}

/// Copies a dealing.
pub fn clone_dealing(d: &Dealing) -> (r: Dealing)
    ensures
        r@ == d@,
{
    Dealing { bytes: clone_bytes(&d.bytes) }
}

/// What parsing and cryptographic verification made of one posted dealing.
/// The two checks run outside the library, against the epoch parameters,
/// the threshold and the receiver set; the filter consumes their verdict.
#[derive(Clone)]
pub enum DealingAssessment {
    /// The posted bytes could not be parsed.
    Malformed,
    /// The bytes parsed but the dealing failed verification.
    VerificationFailed,
    /// The dealing parsed and verified; it carries the posted payload.
    Verified(Dealing),
}

/// Ghost value of an assessment.
pub ghost enum AssessmentV {
    Malformed,
    VerificationFailed,
    Verified(Seq<u8>),
}

impl View for DealingAssessment {
    type V = AssessmentV;

    open spec fn view(&self) -> AssessmentV {
        match self {
            DealingAssessment::Malformed => AssessmentV::Malformed,
            DealingAssessment::VerificationFailed => AssessmentV::VerificationFailed,
            DealingAssessment::Verified(d) => AssessmentV::Verified(d@),
        }
    }
}

/// One dealing fetched from the ledger for one polynomial: the posting
/// dealer's address and the assessed contribution.
#[derive(Clone)]
pub struct ContractDealing {
    pub dealer: String,
    pub assessment: DealingAssessment,
}

/// Ghost value of a fetched dealing.
#[verifier::ext_equal]
pub ghost struct ContractDealingV {
    pub dealer: Seq<char>,
    pub assessment: AssessmentV,
}

impl View for ContractDealing {
    type V = ContractDealingV;

    open spec fn view(&self) -> ContractDealingV {
        ContractDealingV { dealer: self.dealer@, assessment: self.assessment@ }
    }
}

/// Ghost value of the postings of one polynomial.
pub open spec fn poly_view(items: Seq<ContractDealing>) -> Seq<ContractDealingV> {
    items.map_values(|c: ContractDealing| c@)
}

/// Ghost value of the postings of all polynomials.
pub open spec fn polys_view(polys: Seq<Vec<ContractDealing>>) -> Seq<Seq<ContractDealingV>> {
    polys.map_values(|v: Vec<ContractDealing>| poly_view(v@))
}

/// One entry of a dealings map: a surviving dealer's node index and address
/// with its (last) verified dealing for the polynomial.
#[derive(Clone)]
pub struct MapEntry {
    pub index: u64,
    pub address: String,
    pub dealing: Dealing,
}

/// Ghost value of a map entry.
#[verifier::ext_equal]
pub ghost struct MapEntryV {
    pub index: u64,
    pub address: Seq<char>,
    pub dealing: Seq<u8>,
}

impl View for MapEntry {
    type V = MapEntryV;

    open spec fn view(&self) -> MapEntryV {
        MapEntryV { index: self.index, address: self.address@, dealing: self.dealing@ }
    }
}

/// The surviving dealings of one polynomial, keyed by dealer node index,
/// in ascending index order.
#[derive(Clone)]
pub struct DealingsMap {
    pub entries: Vec<MapEntry>,
}

/// Ghost value of a dealings map.
pub open spec fn map_view(m: DealingsMap) -> Seq<MapEntryV> {
    m.entries@.map_values(|e: MapEntry| e@)
}

impl DealingsMap {
    /// Number of surviving dealings in the map.
    pub fn len(&self) -> (r: usize)
        ensures
            r == map_view(*self).len(),
    {
        self.entries.len()
    }
}

} // verus!
