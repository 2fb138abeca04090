//! Backend-independent Vulkan queue selection policy.
use vstd::prelude::*;

verus! {

pub const QUEUE_GRAPHICS: u32 = 0x0000_0001;

pub const QUEUE_COMPUTE: u32 = 0x0000_0002;

pub const QUEUE_TRANSFER: u32 = 0x0000_0004;

#[derive(Clone, Copy, Debug, PartialEq, Eq)]
pub struct QueueFamilyInfo {
    pub index: u32,
    pub flags: u32,
    pub queue_count: u32,
}

impl QueueFamilyInfo {
    /// The family has at least one queue and every bit of `required`.
    pub open spec fn spec_supports(self, required: u32) -> bool {
        self.queue_count > 0 && self.flags & required == required
    }

    pub fn supports(&self, required: u32) -> (r: bool)
        ensures
            r == self.spec_supports(required),
    {
        self.queue_count > 0 && self.flags & required == required
    }
}

#[derive(Clone, Copy, Debug, PartialEq, Eq)]
pub struct QueueSelection {
    pub graphics: u32,
    pub compute: u32,
    pub transfer: u32,
}

#[derive(Clone, Copy, Debug, PartialEq, Eq)]
pub struct QueueCreateRequest {
    pub family_index: u32,
    pub queue_count: u32,
}

#[derive(Debug, Clone, Copy, PartialEq, Eq)]
pub struct QueueSelectionError;

/// The first element of `s` that satisfies `p`, scanning from the front.
pub open spec fn first_where<T>(s: Seq<T>, p: spec_fn(T) -> bool) -> Option<T>
    decreases s.len(),
{
    if s.len() == 0 {
        None
    } else if p(s[0]) {
        Some(s[0])
    } else {
        first_where(s.drop_first(), p)
    }
}

/// One step of a front-to-back scan: the first match of a suffix starting at
/// `i` is `s[i]` when it matches, else the first match of the next suffix.
pub proof fn lemma_first_where_step<T>(s: Seq<T>, i: int, p: spec_fn(T) -> bool)
    requires
        0 <= i < s.len(),
    ensures
        first_where(s.subrange(i, s.len() as int), p) == (if p(s[i]) {
            Some(s[i])
        } else {
            first_where(s.subrange(i + 1, s.len() as int), p)
        }),
{
    assert(s.subrange(i, s.len() as int).drop_first() =~= s.subrange(i + 1, s.len() as int));
}

/// Whatever `first_where` finds satisfies the predicate and occurs in `s`.
pub proof fn lemma_first_where_found<T>(s: Seq<T>, p: spec_fn(T) -> bool)
    ensures
        first_where(s, p) matches Some(v) ==> p(v) && s.contains(v),
        first_where(s, p) is None <==> forall|i: int| 0 <= i < s.len() ==> !p(#[trigger] s[i]),
    decreases s.len(),
{
    if s.len() > 0 {
        lemma_first_where_found(s.drop_first(), p);
        if let Some(v) = first_where(s.drop_first(), p) {
            let k = choose|k: int| 0 <= k < s.drop_first().len() && s.drop_first()[k] == v;
            assert(s[k + 1] == v);
        }
        if !p(s[0]) && first_where(s.drop_first(), p) is None {
            assert forall|i: int| 0 <= i < s.len() implies !p(#[trigger] s[i]) by {
                if i > 0 {
                    assert(s[i] == s.drop_first()[i - 1]);
                }
            }
        }
    }
}

pub open spec fn supports_pred(required: u32) -> spec_fn(QueueFamilyInfo) -> bool {
    |f: QueueFamilyInfo| f.spec_supports(required)
}

pub open spec fn supports_avoiding_pred(required: u32, avoid: u32) -> spec_fn(
    QueueFamilyInfo,
) -> bool {
    |f: QueueFamilyInfo| f.spec_supports(required) && f.flags & avoid == 0
}

/// The first family that supports `required` and has none of the `avoid`
/// bits; failing that, the first family that supports `required`.
pub open spec fn spec_first_preferred(
    families: Seq<QueueFamilyInfo>,
    required: u32,
    avoid: u32,
) -> Option<QueueFamilyInfo> {
    match first_where(families, supports_avoiding_pred(required, avoid)) {
        Some(f) => Some(f),
        None => first_where(families, supports_pred(required)),
    }
}

pub open spec fn spec_select_queue_families(families: Seq<QueueFamilyInfo>) -> Option<
    QueueSelection,
> {
    let graphics = first_where(families, supports_pred(QUEUE_GRAPHICS));
    let compute = spec_first_preferred(families, QUEUE_COMPUTE, QUEUE_GRAPHICS);
    let transfer = spec_first_preferred(families, QUEUE_TRANSFER, QUEUE_GRAPHICS | QUEUE_COMPUTE);
    if graphics is Some && compute is Some && transfer is Some {
        Some(
            QueueSelection {
                graphics: graphics.unwrap().index,
                compute: compute.unwrap().index,
                transfer: transfer.unwrap().index,
            },
        )
    } else {
        None
    }
}

fn first_supporting(families: &[QueueFamilyInfo], required: u32) -> (r: Option<QueueFamilyInfo>)
    ensures
        r == first_where(families@, supports_pred(required)),
{
    let mut i: usize = 0;
    assert(families@.subrange(0, families@.len() as int) =~= families@);
    while i < families.len()
        invariant
            i <= families.len(),
            first_where(families@, supports_pred(required)) == first_where(
                families@.subrange(i as int, families@.len() as int),
                supports_pred(required),
            ),
        decreases families.len() - i,
    {
        proof {
            lemma_first_where_step(families@, i as int, supports_pred(required));
        }
        if families[i].supports(required) {
            return Some(families[i]);
        }
        i = i + 1;
    }
    assert(families@.subrange(i as int, families@.len() as int).len() == 0);
    None
}

fn first_supporting_avoiding(
    families: &[QueueFamilyInfo],
    required: u32,
    avoid: u32,
) -> (r: Option<QueueFamilyInfo>)
    ensures
        r == first_where(families@, supports_avoiding_pred(required, avoid)),
{
    let mut i: usize = 0;
    assert(families@.subrange(0, families@.len() as int) =~= families@);
    while i < families.len()
        invariant
            i <= families.len(),
            first_where(families@, supports_avoiding_pred(required, avoid)) == first_where(
                families@.subrange(i as int, families@.len() as int),
                supports_avoiding_pred(required, avoid),
            ),
        decreases families.len() - i,
    {
        proof {
            lemma_first_where_step(families@, i as int, supports_avoiding_pred(required, avoid));
        }
        if families[i].supports(required) && families[i].flags & avoid == 0 {
            return Some(families[i]);
        }
        i = i + 1;
    }
    None
}

fn first_preferred(families: &[QueueFamilyInfo], required: u32, avoid: u32) -> (r: Option<
    QueueFamilyInfo,
>)
    ensures
        r == spec_first_preferred(families@, required, avoid),
{
    match first_supporting_avoiding(families, required, avoid) {
        Some(family) => Some(family),
        None => first_supporting(families, required),
    }
}

/// Picks the graphics, compute and transfer families: graphics is the first
/// family with graphics support; compute prefers the first family without
/// graphics, transfer the first without graphics or compute, each falling
/// back to the first family with the capability.
pub fn select_queue_families(families: &[QueueFamilyInfo]) -> (r: Result<
    QueueSelection,
    QueueSelectionError,
>)
    ensures
        r is Ok <==> spec_select_queue_families(families@) is Some,
        r matches Ok(sel) ==> spec_select_queue_families(families@) == Some(sel),
{
    let graphics = first_supporting(families, QUEUE_GRAPHICS);
    let compute = first_preferred(families, QUEUE_COMPUTE, QUEUE_GRAPHICS);
    let transfer = first_preferred(families, QUEUE_TRANSFER, QUEUE_GRAPHICS | QUEUE_COMPUTE);
    match (graphics, compute, transfer) {
        (Some(graphics), Some(compute), Some(transfer)) => Ok(
            QueueSelection {
                graphics: graphics.index,
                compute: compute.index,
                transfer: transfer.index,
            },
        ),
        _ => Err(QueueSelectionError),
    }
}

/// Queue counts per request after folding roles that share a family into
/// the first request naming that family: graphics, then compute, then
/// transfer. A folded request keeps its family index with a zero count.
pub open spec fn spec_request_counts(selection: QueueSelection) -> (u32, u32, u32) {
    let g = selection.graphics;
    let c = selection.compute;
    let t = selection.transfer;
    (
        (1 + (if c == g { 1int } else { 0 }) + (if t == g { 1int } else { 0 })) as u32,
        (if c == g { 0int } else { 1 + (if t == c { 1int } else { 0 }) }) as u32,
        (if t == g || t == c { 0int } else { 1 }) as u32,
    )
}

/// One create request per role, in graphics/compute/transfer order; a role
/// whose family already appeared earlier adds its queue to that earlier
/// request and keeps a zero count.
pub fn build_queue_create_requests(selection: QueueSelection) -> (r: [QueueCreateRequest; 3])
    ensures
        r[0].family_index == selection.graphics,
        r[1].family_index == selection.compute,
        r[2].family_index == selection.transfer,
        r[0].queue_count == spec_request_counts(selection).0,
        r[1].queue_count == spec_request_counts(selection).1,
        r[2].queue_count == spec_request_counts(selection).2,
{
    let mut requests = [
        QueueCreateRequest { family_index: selection.graphics, queue_count: 1 },
        QueueCreateRequest { family_index: selection.compute, queue_count: 1 },
        QueueCreateRequest { family_index: selection.transfer, queue_count: 1 },
    ];
    if requests[1].family_index == requests[0].family_index {
        requests[0].queue_count = requests[0].queue_count.saturating_add(1);
        requests[1].queue_count = 0;
    }
    if requests[2].family_index == requests[0].family_index {
        requests[0].queue_count = requests[0].queue_count.saturating_add(1);
        requests[2].queue_count = 0;
    } else if requests[2].family_index == requests[1].family_index {
        requests[1].queue_count = requests[1].queue_count.saturating_add(1);
        requests[2].queue_count = 0;
    }
    requests
}

/// Every role gets exactly one queue: the request counts add up to three,
/// requests with a nonzero count name pairwise distinct families, and each
/// role's family is named by a request with a nonzero count.
pub proof fn law_queue_requests_cover_each_role_once(selection: QueueSelection)
    ensures
        ({
            let (a, b, c) = spec_request_counts(selection);
            &&& a + b + c == 3
            &&& a > 0
            &&& (b > 0 ==> selection.compute != selection.graphics)
            &&& (c > 0 ==> selection.transfer != selection.graphics && selection.transfer
                != selection.compute)
            &&& (selection.compute == selection.graphics || b > 0)
            &&& (selection.transfer == selection.graphics || selection.transfer
                == selection.compute || c > 0)
            &&& (selection.transfer == selection.compute && selection.compute
                != selection.graphics ==> b > 0)
        }),
{
}

/// A successful selection names families that exist in the input and support
/// their role; compute and transfer use a family without the graphics bit
/// (and, for transfer, without the compute bit) whenever one exists.
pub proof fn law_selection_supports_roles(families: Seq<QueueFamilyInfo>)
    ensures
        spec_select_queue_families(families) matches Some(sel) ==> {
            &&& exists|i: int|
                0 <= i < families.len() && #[trigger] families[i].index == sel.graphics
                    && families[i].spec_supports(QUEUE_GRAPHICS)
            &&& exists|i: int|
                0 <= i < families.len() && #[trigger] families[i].index == sel.compute
                    && families[i].spec_supports(QUEUE_COMPUTE)
            &&& exists|i: int|
                0 <= i < families.len() && #[trigger] families[i].index == sel.transfer
                    && families[i].spec_supports(QUEUE_TRANSFER)
        },
        (exists|i: int|
            0 <= i < families.len() && (#[trigger] families[i]).spec_supports(QUEUE_COMPUTE)
                && families[i].flags & QUEUE_GRAPHICS == 0) ==> (spec_first_preferred(
            families,
            QUEUE_COMPUTE,
            QUEUE_GRAPHICS,
        ) matches Some(f) && f.flags & QUEUE_GRAPHICS == 0),
        spec_select_queue_families(families) is Some <==> (exists|i: int|
            0 <= i < families.len() && (#[trigger] families[i]).spec_supports(QUEUE_GRAPHICS))
            && (exists|i: int|
            0 <= i < families.len() && (#[trigger] families[i]).spec_supports(QUEUE_COMPUTE))
            && (exists|i: int|
            0 <= i < families.len() && (#[trigger] families[i]).spec_supports(QUEUE_TRANSFER)),
{
    lemma_first_where_found(families, supports_pred(QUEUE_GRAPHICS));
    lemma_first_where_found(families, supports_pred(QUEUE_COMPUTE));
    lemma_first_where_found(families, supports_pred(QUEUE_TRANSFER));
    lemma_first_where_found(families, supports_avoiding_pred(QUEUE_COMPUTE, QUEUE_GRAPHICS));
    lemma_first_where_found(
        families,
        supports_avoiding_pred(QUEUE_TRANSFER, QUEUE_GRAPHICS | QUEUE_COMPUTE),
    );
    if let Some(sel) = spec_select_queue_families(families) {
        let g = first_where(families, supports_pred(QUEUE_GRAPHICS)).unwrap();
        let kg = choose|k: int| 0 <= k < families.len() && families[k] == g;
        assert(families[kg].index == sel.graphics);
        let c = spec_first_preferred(families, QUEUE_COMPUTE, QUEUE_GRAPHICS).unwrap();
        let kc = choose|k: int| 0 <= k < families.len() && families[k] == c;
        assert(families[kc].index == sel.compute);
        let t = spec_first_preferred(families, QUEUE_TRANSFER, QUEUE_GRAPHICS | QUEUE_COMPUTE).unwrap();
        let kt = choose|k: int| 0 <= k < families.len() && families[k] == t;
        assert(families[kt].index == sel.transfer);
    }
    if exists|i: int|
        0 <= i < families.len() && (#[trigger] families[i]).spec_supports(QUEUE_COMPUTE) {
        let i = choose|i: int|
            0 <= i < families.len() && (#[trigger] families[i]).spec_supports(QUEUE_COMPUTE);
        assert(supports_pred(QUEUE_COMPUTE)(families[i]));
    }
    if exists|i: int|
        0 <= i < families.len() && (#[trigger] families[i]).spec_supports(QUEUE_TRANSFER) {
        let i = choose|i: int|
            0 <= i < families.len() && (#[trigger] families[i]).spec_supports(QUEUE_TRANSFER);
        assert(supports_pred(QUEUE_TRANSFER)(families[i]));
    }
    if exists|i: int|
        0 <= i < families.len() && (#[trigger] families[i]).spec_supports(QUEUE_GRAPHICS) {
        let i = choose|i: int|
            0 <= i < families.len() && (#[trigger] families[i]).spec_supports(QUEUE_GRAPHICS);
        assert(supports_pred(QUEUE_GRAPHICS)(families[i]));
    }
    if exists|i: int|
        0 <= i < families.len() && (#[trigger] families[i]).spec_supports(QUEUE_COMPUTE)
            && families[i].flags & QUEUE_GRAPHICS == 0 {
        let i = choose|i: int|
            0 <= i < families.len() && (#[trigger] families[i]).spec_supports(QUEUE_COMPUTE)
                && families[i].flags & QUEUE_GRAPHICS == 0;
        assert(supports_avoiding_pred(QUEUE_COMPUTE, QUEUE_GRAPHICS)(families[i]));
    }
}

/// The first element satisfying `p` sits at the first index where `p`
/// holds.
proof fn lemma_first_where_first<T>(s: Seq<T>, p: spec_fn(T) -> bool, k: int)
    requires
        0 <= k < s.len(),
        p(s[k]),
    ensures
        exists|i: int|
            0 <= i <= k && p(s[i]) && first_where(s, p) == Some(s[i]) && forall|j: int|
                0 <= j < i ==> !p(#[trigger] s[j]),
    decreases s.len(),
{
    if p(s[0]) {
        assert(first_where(s, p) == Some(s[0]));
    } else {
        let t = s.drop_first();
        assert(t[k - 1] == s[k]);
        lemma_first_where_first(t, p, k - 1);
        let i = choose|i: int|
            0 <= i <= k - 1 && p(t[i]) && first_where(t, p) == Some(t[i]) && forall|j: int|
                0 <= j < i ==> !p(#[trigger] t[j]);
        assert(t[i] == s[i + 1]);
        assert forall|j: int| 0 <= j < i + 1 implies !p(#[trigger] s[j]) by {
            if j > 0 {
                assert(s[j] == t[j - 1]);
            }
        }
    }
}

/// A family with neither graphics nor compute: a dedicated transfer family
/// when it also transfers.
pub open spec fn without_graphics_or_compute(f: QueueFamilyInfo) -> bool {
    f.flags & QUEUE_GRAPHICS == 0 && f.flags & QUEUE_COMPUTE == 0
}

/// Whenever some family transfers with neither the graphics nor the compute
/// bit, the transfer role goes to the first such family; whenever some
/// family computes without the graphics bit, the compute role goes to the
/// first such family.
pub proof fn law_dedicated_families_are_preferred(families: Seq<QueueFamilyInfo>)
    ensures
        spec_select_queue_families(families) matches Some(sel) ==> ((exists|k: int|
            0 <= k < families.len() && (#[trigger] families[k]).spec_supports(QUEUE_TRANSFER)
                && without_graphics_or_compute(families[k])) ==> exists|i: int|
            0 <= i < families.len() && (#[trigger] families[i]).index == sel.transfer
                && families[i].spec_supports(QUEUE_TRANSFER) && without_graphics_or_compute(
                families[i],
            ) && forall|j: int|
                0 <= j < i ==> !((#[trigger] families[j]).spec_supports(QUEUE_TRANSFER)
                    && without_graphics_or_compute(families[j]))),
        spec_select_queue_families(families) matches Some(sel) ==> ((exists|k: int|
            0 <= k < families.len() && (#[trigger] families[k]).spec_supports(QUEUE_COMPUTE)
                && families[k].flags & QUEUE_GRAPHICS == 0) ==> exists|i: int|
            0 <= i < families.len() && (#[trigger] families[i]).index == sel.compute
                && families[i].spec_supports(QUEUE_COMPUTE) && families[i].flags & QUEUE_GRAPHICS == 0
                && forall|j: int|
                0 <= j < i ==> !((#[trigger] families[j]).spec_supports(QUEUE_COMPUTE)
                    && families[j].flags & QUEUE_GRAPHICS == 0)),
{
    let pt = supports_avoiding_pred(QUEUE_TRANSFER, QUEUE_GRAPHICS | QUEUE_COMPUTE);
    let pc = supports_avoiding_pred(QUEUE_COMPUTE, QUEUE_GRAPHICS);
    assert forall|f: QueueFamilyInfo| #[trigger] pt(f) == (f.spec_supports(QUEUE_TRANSFER)
        && without_graphics_or_compute(f)) by {
        let x = f.flags;
        assert(x & (1u32 | 2u32) == 0 <==> (x & 1u32 == 0 && x & 2u32 == 0)) by (bit_vector);
    }
    if let Some(sel) = spec_select_queue_families(families) {
        if exists|k: int|
            0 <= k < families.len() && (#[trigger] families[k]).spec_supports(QUEUE_TRANSFER)
                && without_graphics_or_compute(families[k]) {
            let k = choose|k: int|
                0 <= k < families.len() && (#[trigger] families[k]).spec_supports(QUEUE_TRANSFER)
                    && without_graphics_or_compute(families[k]);
            assert(pt(families[k]));
            lemma_first_where_first(families, pt, k);
            let i = choose|i: int|
                0 <= i <= k && pt(families[i]) && first_where(families, pt) == Some(families[i])
                    && forall|j: int| 0 <= j < i ==> !pt(#[trigger] families[j]);
            assert(families[i].index == sel.transfer);
            assert forall|j: int| 0 <= j < i implies !((#[trigger] families[j]).spec_supports(
                QUEUE_TRANSFER,
            ) && without_graphics_or_compute(families[j])) by {
                assert(!pt(families[j]));
            }
        }
        if exists|k: int|
            0 <= k < families.len() && (#[trigger] families[k]).spec_supports(QUEUE_COMPUTE)
                && families[k].flags & QUEUE_GRAPHICS == 0 {
            let k = choose|k: int|
                0 <= k < families.len() && (#[trigger] families[k]).spec_supports(QUEUE_COMPUTE)
                    && families[k].flags & QUEUE_GRAPHICS == 0;
            assert(pc(families[k]));
            lemma_first_where_first(families, pc, k);
            let i = choose|i: int|
                0 <= i <= k && pc(families[i]) && first_where(families, pc) == Some(families[i])
                    && forall|j: int| 0 <= j < i ==> !pc(#[trigger] families[j]);
            assert(families[i].index == sel.compute);
            assert forall|j: int| 0 <= j < i implies !((#[trigger] families[j]).spec_supports(
                QUEUE_COMPUTE,
            ) && families[j].flags & QUEUE_GRAPHICS == 0) by {
                assert(!pc(families[j]));
            }
        }
    }
}

} // verus!
