use vstd::prelude::*;

verus! {

/// Serialized size of one group element of the pairing group in which
/// verification-key components live. The pipeline never computes with group
/// elements; it only moves, compares and serializes them, so a component is
/// modelled as an opaque byte string of this fixed width.
pub const GROUP_ELEMENT_BYTES: usize = 96;

/// One public component of a verification key, or one recovered partial:
/// an opaque group element in serialized form.
#[derive(Clone)]
pub struct GroupElement {
    pub bytes: Vec<u8>,
}

impl View for GroupElement {
    type V = Seq<u8>;

    open spec fn view(&self) -> Seq<u8> {
        self.bytes@
    }
}

impl GroupElement {
    /// A group element carries exactly one serialized point.
    pub open spec fn wf(self) -> bool {
        self.bytes@.len() == GROUP_ELEMENT_BYTES
    }
}

/// One secret scalar, in serialized form. Scalars are produced outside the
/// library (by share decryption and Lagrange combination) and are only
/// collected and arranged here.
#[derive(Clone)]
pub struct Scalar {
    pub bytes: Vec<u8>,
}

impl View for Scalar {
    type V = Seq<u8>;

    open spec fn view(&self) -> Seq<u8> {
        self.bytes@
    }
}

/// The threshold secret key: one scalar per polynomial, the top-level `x`
/// kept apart from the per-attribute `y` scalars.
#[derive(Clone)]
pub struct SecretKey {
    pub x: Scalar,
    pub ys: Vec<Scalar>,
}

/// The public verification key matching a secret key: `alpha` for the
/// top-level scalar, one `beta` per attribute scalar.
#[derive(Clone)]
pub struct VerificationKey {
    pub alpha: GroupElement,
    pub betas: Vec<GroupElement>,
}

/// Ghost value of a verification key.
#[verifier::ext_equal]
pub ghost struct VerificationKeyV {
    pub alpha: Seq<u8>,
    pub betas: Seq<Seq<u8>>,
}

impl View for VerificationKey {
    type V = VerificationKeyV;

    open spec fn view(&self) -> VerificationKeyV {
        VerificationKeyV {
            alpha: self.alpha@,
            betas: self.betas@.map_values(|g: GroupElement| g@),
        }
    }
}

/// Well-formedness of a ghost verification key: every component has the
/// width of a serialized group element.
pub open spec fn vk_wf(v: VerificationKeyV) -> bool {
    &&& v.alpha.len() == GROUP_ELEMENT_BYTES
    &&& forall|i: int| 0 <= i < v.betas.len() ==> (#[trigger] v.betas[i]).len() == GROUP_ELEMENT_BYTES
}

/// The local threshold keypair produced by the share deriver.
#[derive(Clone)]
pub struct KeyPair {
    pub secret_key: SecretKey,
    pub verification_key: VerificationKey,
}

/// Per-polynomial result of recovering the public polynomial from the
/// surviving dealings: the `threshold` public coefficients, and the public
/// evaluation (partial) at each surviving receiver index, in ascending
/// receiver order.
#[derive(Clone)]
pub struct RecoveredVerificationKeys {
    pub public_coefficients: Vec<GroupElement>,
    pub recovered_partials: Vec<GroupElement>,
}

/// Ghost view of the partials of one recovery, one serialized element per
/// surviving receiver.
pub open spec fn partials_view(r: RecoveredVerificationKeys) -> Seq<Seq<u8>> {
    r.recovered_partials@.map_values(|g: GroupElement| g@)
}

/// Copies a byte vector.
pub fn clone_bytes(v: &Vec<u8>) -> (r: Vec<u8>)
    ensures
        r@ == v@,
{
    let mut out: Vec<u8> = Vec::new();
    let mut i: usize = 0;
    while i < v.len()
        invariant
            i <= v@.len(),
            out@ == v@.subrange(0, i as int),
        decreases v@.len() - i,
    {
        out.push(v[i]);
        i = i + 1;
    }
    proof {
        assert(out@ =~= v@);
    }
    out
}

/// Compares two byte vectors for equality.
pub fn bytes_eq(a: &Vec<u8>, b: &Vec<u8>) -> (r: bool)
    ensures
        r == (a@ == b@),
{
    if a.len() != b.len() {
        proof {
            assert(a@.len() != b@.len());
        }
        return false;
    }
    let mut i: usize = 0;
    while i < a.len()
        invariant
            i <= a@.len(),
            a@.len() == b@.len(),
            forall|j: int| 0 <= j < i ==> a@[j] == b@[j],
        decreases a@.len() - i,
    {
        if a[i] != b[i] {
            return false;
        }
        i = i + 1;
    }
    proof {
        assert(a@ =~= b@);
    }
    true
}

/// Copies a group element.
pub fn clone_group_element(g: &GroupElement) -> (r: GroupElement)
    ensures
        r@ == g@,
{
    GroupElement { bytes: clone_bytes(&g.bytes) }
}

/// Compares two group elements.
pub fn group_element_eq(a: &GroupElement, b: &GroupElement) -> (r: bool)
    ensures
        r == (a@ == b@),
{
    bytes_eq(&a.bytes, &b.bytes)
}

/// Ghost value of a row of group elements.
pub open spec fn row_view(row: Seq<GroupElement>) -> Seq<Seq<u8>> {
    row.map_values(|g: GroupElement| g@)
}

/// Whether a submitted verification key pairs with the partials recovered
/// for one receiver, one partial per polynomial: the `beta` components match
/// the attribute polynomials in order and `alpha` matches the last, top-level
/// polynomial.
pub open spec fn spec_vk_pairs(parts: Seq<Seq<u8>>, v: VerificationKeyV) -> bool {
    &&& parts.len() == v.betas.len() + 1
    &&& v.alpha == parts[parts.len() - 1]
    &&& forall|j: int| 0 <= j < v.betas.len() ==> v.betas[j] == parts[j]
}

/// Checks a submitted verification key against the recovered partials of one
/// receiver, one per polynomial in polynomial order.
pub fn check_vk_pairing(partials: &Vec<GroupElement>, vk: &VerificationKey) -> (r: bool)
    ensures
        r == spec_vk_pairs(row_view(partials@), vk@),
{
    let n = partials.len();
    if n == 0 || n - 1 != vk.betas.len() {
        return false;
    }
    if !group_element_eq(&partials[n - 1], &vk.alpha) {
        return false;
    }
    let mut j: usize = 0;
    while j < n - 1
        invariant
            n == partials@.len(),
            n >= 1,
            n - 1 == vk.betas@.len(),
            j <= n - 1,
            vk@.alpha == row_view(partials@)[n - 1],
            forall|k: int| 0 <= k < j ==> vk@.betas[k] == row_view(partials@)[k],
        decreases n - 1 - j,
    {
        if !group_element_eq(&vk.betas[j], &partials[j]) {
            proof {
                assert(vk@.betas[j as int] == vk.betas@[j as int]@);
                assert(row_view(partials@)[j as int] == partials@[j as int]@);
            }
            return false;
        }
        proof {
            assert(vk@.betas[j as int] == vk.betas@[j as int]@);
            assert(row_view(partials@)[j as int] == partials@[j as int]@);
        }
        j = j + 1;
    }
    true
}

/// Width of a matrix of group elements: the length of its first row.
pub open spec fn matrix_width(m: Seq<Vec<GroupElement>>) -> int {
    if m.len() == 0 {
        0
    } else {
        m[0]@.len() as int
    }
}

/// A matrix is rectangular: every row has the width of the first.
pub open spec fn matrix_rect(m: Seq<Vec<GroupElement>>) -> bool {
    forall|i: int| 0 <= i < m.len() ==> (#[trigger] m[i])@.len() == matrix_width(m)
}

/// Transposes a rectangular matrix of group elements: row `p` per
/// polynomial in, row `k` per receiver out.
pub fn transpose_matrix(m: &Vec<Vec<GroupElement>>) -> (r: Vec<Vec<GroupElement>>)
    requires
        matrix_rect(m@),
    ensures
        r@.len() == matrix_width(m@),
        forall|i: int| 0 <= i < r@.len() ==> (#[trigger] r@[i])@.len() == m@.len(),
        forall|i: int, j: int|
            0 <= i < r@.len() && 0 <= j < m@.len() ==> (#[trigger] r@[i]@[j])@ == m@[j]@[i]@,
{
    let mut out: Vec<Vec<GroupElement>> = Vec::new();
    let width = if m.len() == 0 {
        0
    } else {
        m[0].len()
    };
    let mut i: usize = 0;
    while i < width
        invariant
            matrix_rect(m@),
            width == matrix_width(m@),
            i <= width,
            out@.len() == i,
            forall|a: int| 0 <= a < i ==> (#[trigger] out@[a])@.len() == m@.len(),
            forall|a: int, j: int|
                0 <= a < i && 0 <= j < m@.len() ==> (#[trigger] out@[a]@[j])@ == m@[j]@[a]@,
        decreases width - i,
    {
        let mut row: Vec<GroupElement> = Vec::new();
        let mut j: usize = 0;
        while j < m.len()
            invariant
                matrix_rect(m@),
                width == matrix_width(m@),
                i < width,
                j <= m@.len(),
                row@.len() == j,
                forall|k: int| 0 <= k < j ==> (#[trigger] row@[k])@ == m@[k]@[i as int]@,
            decreases m@.len() - j,
        {
            row.push(clone_group_element(&m[j][i]));
            j = j + 1;
        }
        out.push(row);
        i = i + 1;
    }
    out
}

} // verus!
