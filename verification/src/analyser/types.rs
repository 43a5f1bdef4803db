//! Abstract tensors: partial knowledge of the element type, the shape and
//! the value of the tensors that may flow through an edge of the graph.
//!
//! The analyser first tags every edge with the most general abstract tensor
//! and then refines the tags until nothing changes any more.  Two pieces of
//! knowledge about one edge are combined by `meet`, which keeps everything
//! that either of them knows and fails where they contradict each other.

use vstd::prelude::*;
use crate::errors::Error;
use crate::matrix::{Matrix, MatrixView};
use crate::tfpb::types::DataType;

verus! {

/// An abstract type: any type, or exactly one.
#[derive(Debug, Clone, Copy, PartialEq, Eq, Structural)]
pub enum AType {
    Any,
    Only(DataType),
}

/// An abstract dimension: any size, or exactly one.
#[derive(Debug, Clone, Copy, PartialEq, Eq, Structural)]
pub enum ADimension {
    Any,
    Only(usize),
}

/// An abstract shape.  A closed shape has a known rank; an open shape is
/// known by its first dimensions only and stands for every shape that starts
/// with them.
#[derive(Debug)]
pub enum AShape {
    Open(Vec<ADimension>),
    Closed(Vec<ADimension>),
}

/// An abstract value: any tensor, or exactly one.
#[derive(Debug)]
pub enum AValue {
    Any,
    Only(Matrix),
}

/// An abstract tensor.
#[derive(Debug)]
pub struct ATensor {
    pub datatype: AType,
    pub shape: AShape,
    pub value: AValue,
}

/// An abstract shape as mathematical data.
pub struct AShapeView {
    pub open: bool,
    pub dims: Seq<ADimension>,
}

/// An abstract tensor as mathematical data.
pub struct ATensorView {
    pub datatype: AType,
    pub shape: AShapeView,
    pub value: Option<MatrixView>,
}

impl View for AShape {
    type V = AShapeView;

    open spec fn view(&self) -> AShapeView {
        match self {
            AShape::Open(dims) => AShapeView { open: true, dims: dims@ },
            AShape::Closed(dims) => AShapeView { open: false, dims: dims@ },
        }
    }
}

impl View for AValue {
    type V = Option<MatrixView>;

    open spec fn view(&self) -> Option<MatrixView> {
        match self {
            AValue::Any => None,
            AValue::Only(m) => Some(m@),
        }
    }
}

impl View for ATensor {
    type V = ATensorView;

    open spec fn view(&self) -> ATensorView {
        ATensorView { datatype: self.datatype, shape: self.shape@, value: self.value@ }
    }
}

/// The closed shape whose dimensions are exactly `sizes`.
pub open spec fn closed_shape(sizes: Seq<usize>) -> AShapeView {
    AShapeView { open: false, dims: Seq::new(sizes.len(), |i: int| ADimension::Only(sizes[i])) }
}

impl AShapeView {
    /// The most general shape: open, with no dimension known.
    pub open spec fn any() -> AShapeView {
        AShapeView { open: true, dims: Seq::empty() }
    }

    /// Whether the rank and every dimension are known.
    pub open spec fn is_concrete(self) -> bool {
        &&& !self.open
        &&& forall|i: int| 0 <= i < self.dims.len() ==> (#[trigger] self.dims[i]) is Only
    }

    /// The sizes of the dimensions of a concrete shape.
    pub open spec fn sizes(self) -> Seq<usize> {
        Seq::new(self.dims.len(), |i: int| self.dims[i]->Only_0)
    }
}

impl ATensorView {
    /// The most general abstract tensor: nothing is known.
    pub open spec fn any() -> ATensorView {
        ATensorView { datatype: AType::Any, shape: AShapeView::any(), value: None }
    }
}

/// A concrete shape is the closed shape of its sizes.
pub proof fn lemma_concrete_shape(s: AShapeView)
    requires
        s.is_concrete(),
    ensures
        s == closed_shape(s.sizes()),
        closed_shape(s.sizes()).sizes() == s.sizes(),
{
    assert(closed_shape(s.sizes()).dims =~= s.dims);
    assert(closed_shape(s.sizes()).sizes() =~= s.sizes());
}

/// The closed shape of given sizes is concrete and has these sizes.
pub proof fn lemma_closed_shape(sizes: Seq<usize>)
    ensures
        closed_shape(sizes).is_concrete(),
        closed_shape(sizes).sizes() == sizes,
{
    assert(closed_shape(sizes).sizes() =~= sizes);
}

impl ATensor {
    /// Constructs a new abstract tensor, which is as general as possible.
    pub fn new() -> (r: ATensor)
        ensures
            r@ == ATensorView::any(),
    {
        ATensor { datatype: AType::Any, shape: AShape::any(), value: AValue::Any }
    }
}

impl Clone for AShape {
    fn clone(&self) -> (r: AShape)
        ensures
            r@ == self@,
    {
        match self {
            AShape::Open(dims) => AShape::Open(dims.clone()),
            AShape::Closed(dims) => AShape::Closed(dims.clone()),
        }
    }
}

impl Clone for AValue {
    fn clone(&self) -> (r: AValue)
        ensures
            r@ == self@,
    {
        match self {
            AValue::Any => AValue::Any,
            AValue::Only(m) => AValue::Only(m.clone()),
        }
    }
}

impl Clone for ATensor {
    fn clone(&self) -> (r: ATensor)
        ensures
            r@ == self@,
    {
        ATensor { datatype: self.datatype, shape: self.shape.clone(), value: self.value.clone() }
    }
}

impl AShape {
    /// Returns the most general abstract shape possible.
    pub fn any() -> (r: AShape)
        ensures
            r@ == AShapeView::any(),
    {
        AShape::Open(Vec::new())
    }

    /// Returns whether the abstract shape is open.
    pub fn is_open(self: &AShape) -> (r: bool)
        ensures
            r == self@.open,
    {
        match self {
            AShape::Open(_) => true,
            AShape::Closed(_) => false,
        }
    }

    /// Returns the vector of dimensions defining the abstract shape.
    pub fn inner(self: &AShape) -> (r: &Vec<ADimension>)
        ensures
            r@ == self@.dims,
    {
        match self {
            AShape::Open(v) => v,
            AShape::Closed(v) => v,
        }
    }

    /// Tries to transform the abstract shape into a vector of sizes.  Fails
    /// with `NotConcrete` where the shape is open or one of its dimensions
    /// is unknown.
    pub fn concretize(self: &AShape) -> (r: Result<Vec<usize>, Error>)
        ensures
            match r {
                Ok(sizes) => self@.is_concrete() && sizes@ == self@.sizes(),
                Err(e) => !self@.is_concrete() && e == Error::NotConcrete,
            },
    {
        if self.is_open() {
            return Err(Error::NotConcrete);
        }
        let v = self.inner();
        let mut sizes: Vec<usize> = Vec::new();
        let mut i: usize = 0;
        while i < v.len()
            invariant
                i <= v.len(),
                v@ == self@.dims,
                !self@.open,
                sizes@.len() == i,
                forall|j: int| 0 <= j < i ==> v@[j] == ADimension::Only(#[trigger] sizes@[j]),
            decreases v.len() - i,
        {
            match v[i] {
                ADimension::Any => {
                    assert(!(self@.dims[i as int] is Only));
                    return Err(Error::NotConcrete);
                },
                ADimension::Only(d) => {
                    sizes.push(d);
                },
            }
            i += 1;
        }
        assert forall|j: int| 0 <= j < self@.dims.len() implies (#[trigger] self@.dims[j]) is Only by {
            assert(v@[j] == ADimension::Only(sizes@[j]));
        }
        assert(sizes@ =~= self@.sizes());
        Ok(sizes)
    }

    /// Converts a list of sizes into the closed shape with these dimensions.
    pub fn from_sizes(sizes: &[usize]) -> (r: AShape)
        ensures
            r@ == closed_shape(sizes@),
    {
        let mut dims: Vec<ADimension> = Vec::new();
        let mut i: usize = 0;
        while i < sizes.len()
            invariant
                i <= sizes.len(),
                dims@.len() == i,
                forall|j: int| 0 <= j < i ==> #[trigger] dims@[j] == ADimension::Only(sizes@[j]),
            decreases sizes.len() - i,
        {
            dims.push(ADimension::Only(sizes[i]));
            i += 1;
        }
        assert(dims@ =~= closed_shape(sizes@).dims);
        AShape::Closed(dims)
    }
}

impl ADimension {
    /// Returns whether the dimension is concrete.
    pub fn is_concrete(&self) -> (r: bool)
        ensures
            r == (*self is Only),
    {
        match self {
            ADimension::Any => false,
            ADimension::Only(_) => true,
        }
    }
}

impl AValue {
    /// Tries to transform the abstract value into a tensor.  Fails with
    /// `NotConcrete` for an unknown value.
    pub fn concretize(self: &AValue) -> (r: Result<&Matrix, Error>)
        ensures
            match r {
                Ok(m) => self@ == Some(m@),
                Err(e) => self@ is None && e == Error::NotConcrete,
            },
    {
        match self {
            AValue::Any => Err(Error::NotConcrete),
            AValue::Only(m) => Ok(m),
        }
    }

    /// Applies `f` to a known value and leaves an unknown value untouched.
    /// Fails with the error of `f` where `f` fails.
    pub fn map_err<F>(self: &AValue, f: F) -> (r: Result<AValue, Error>) where
        F: Fn(&Matrix) -> Result<Matrix, Error>,

        requires
            self matches AValue::Only(m) ==> f.requires((m,)),
        ensures
            match *self {
                AValue::Any => r matches Ok(v) && v@ is None,
                AValue::Only(m) => match r {
                    Ok(v) => v matches AValue::Only(out) && f.ensures(
                        (&m,),
                        Ok::<Matrix, Error>(out),
                    ),
                    Err(e) => f.ensures((&m,), Err::<Matrix, Error>(e)),
                },
            },
    {
        match self {
            AValue::Any => Ok(AValue::Any),
            AValue::Only(m) => match f(m) {
                Ok(out) => Ok(AValue::Only(out)),
                Err(e) => Err(e),
            },
        }
    }
}

/// The meet of two abstract types: what both know, or a conflict.
pub open spec fn meet_type(a: AType, b: AType) -> Result<AType, Error> {
    match (a, b) {
        (AType::Any, _) => Ok(b),
        (_, AType::Any) => Ok(a),
        (AType::Only(x), AType::Only(y)) => if x == y {
            Ok(a)
        } else {
            Err(Error::InferenceConflict)
        },
    }
}

/// Whether two abstract dimensions do not contradict each other.
pub open spec fn dims_agree(a: ADimension, b: ADimension) -> bool {
    a is Any || b is Any || a == b
}

/// The meet of two abstract dimensions: what both know, or a conflict.
pub open spec fn meet_dim(a: ADimension, b: ADimension) -> Result<ADimension, Error> {
    if !dims_agree(a, b) {
        Err(Error::InferenceConflict)
    } else if a is Any {
        Ok(b)
    } else {
        Ok(a)
    }
}

/// Whether the dimensions that both lists know agree with each other.
pub open spec fn prefixes_agree(a: Seq<ADimension>, b: Seq<ADimension>) -> bool {
    forall|i: int| 0 <= i < a.len() && i < b.len() ==> dims_agree(#[trigger] a[i], b[i])
}

/// The dimensions that two lists know together: position by position the
/// known one of the two, and the rest of the longer list.
pub open spec fn merged_dims(a: Seq<ADimension>, b: Seq<ADimension>) -> Seq<ADimension> {
    Seq::new(
        if a.len() >= b.len() {
            a.len()
        } else {
            b.len()
        },
        |i: int|
            if i < a.len() && i < b.len() {
                if a[i] is Any {
                    b[i]
                } else {
                    a[i]
                }
            } else if i < a.len() {
                a[i]
            } else {
                b[i]
            },
    )
}

/// Whether the ranks that two shapes allow have a rank in common: two closed
/// shapes have the same rank, and an open shape knows no more dimensions
/// than a closed one has.
pub open spec fn ranks_agree(a: AShapeView, b: AShapeView) -> bool {
    &&& !a.open && !b.open ==> a.dims.len() == b.dims.len()
    &&& !a.open && b.open ==> b.dims.len() <= a.dims.len()
    &&& a.open && !b.open ==> a.dims.len() <= b.dims.len()
}

/// The meet of two abstract shapes.  The result is closed where either shape
/// is; it has the dimensions that the two know together.
pub open spec fn meet_shape(a: AShapeView, b: AShapeView) -> Result<AShapeView, Error> {
    if ranks_agree(a, b) && prefixes_agree(a.dims, b.dims) {
        Ok(AShapeView { open: a.open && b.open, dims: merged_dims(a.dims, b.dims) })
    } else {
        Err(Error::InferenceConflict)
    }
}

/// The meet of two abstract values: what both know, or a conflict.
pub open spec fn meet_value(a: Option<MatrixView>, b: Option<MatrixView>) -> Result<
    Option<MatrixView>,
    Error,
> {
    match (a, b) {
        (None, _) => Ok(b),
        (_, None) => Ok(a),
        (Some(x), Some(y)) => if x == y {
            Ok(a)
        } else {
            Err(Error::InferenceConflict)
        },
    }
}

/// The meet of two abstract tensors: the meet of their types, shapes and
/// values, or a conflict where one of the three is one.
pub open spec fn meet_tensor(a: ATensorView, b: ATensorView) -> Result<ATensorView, Error> {
    match (meet_type(a.datatype, b.datatype), meet_shape(a.shape, b.shape), meet_value(
        a.value,
        b.value,
    )) {
        (Ok(datatype), Ok(shape), Ok(value)) => Ok(ATensorView { datatype, shape, value }),
        _ => Err(Error::InferenceConflict),
    }
}

/// Whether `x` says at least what `y` says of a type.
pub open spec fn refines_type(x: AType, y: AType) -> bool {
    y is Any || x == y
}

/// Whether `x` says at least what `y` says of a dimension.
pub open spec fn refines_dim(x: ADimension, y: ADimension) -> bool {
    y is Any || x == y
}

/// Whether `x` says at least what `y` says of a shape.
pub open spec fn refines_shape(x: AShapeView, y: AShapeView) -> bool {
    &&& y.dims.len() <= x.dims.len()
    &&& !y.open ==> !x.open && x.dims.len() == y.dims.len()
    &&& forall|i: int| 0 <= i < y.dims.len() ==> refines_dim(x.dims[i], #[trigger] y.dims[i])
}

/// Whether `x` says at least what `y` says of a value.
pub open spec fn refines_value(x: Option<MatrixView>, y: Option<MatrixView>) -> bool {
    y is None || x == y
}

/// The refinement order on abstract tensors: whether `x` says at least what
/// `y` says.
pub open spec fn refines(x: ATensorView, y: ATensorView) -> bool {
    &&& refines_type(x.datatype, y.datatype)
    &&& refines_shape(x.shape, y.shape)
    &&& refines_value(x.value, y.value)
}

/// Meet is idempotent: the meet of an abstract tensor with itself is the
/// tensor.
pub proof fn lemma_meet_idempotent(x: ATensorView)
    ensures
        meet_tensor(x, x) == Ok::<ATensorView, Error>(x),
{
    assert(merged_dims(x.shape.dims, x.shape.dims) =~= x.shape.dims);
}

/// Meet is symmetric in what it accepts, and where it succeeds the order of
/// the arguments does not matter.
pub proof fn lemma_meet_commutes(x: ATensorView, y: ATensorView)
    ensures
        meet_tensor(x, y) == meet_tensor(y, x),
{
    if prefixes_agree(x.shape.dims, y.shape.dims) {
        assert forall|i: int| 0 <= i < y.shape.dims.len() && i < x.shape.dims.len() implies dims_agree(
            #[trigger] y.shape.dims[i],
            x.shape.dims[i],
        ) by {
            assert(dims_agree(x.shape.dims[i], y.shape.dims[i]));
        }
        assert(merged_dims(x.shape.dims, y.shape.dims) =~= merged_dims(y.shape.dims, x.shape.dims))
            by {
            assert forall|i: int|
                0 <= i < merged_dims(x.shape.dims, y.shape.dims).len() implies merged_dims(
                x.shape.dims,
                y.shape.dims,
            )[i] == merged_dims(y.shape.dims, x.shape.dims)[i] by {
                if i < x.shape.dims.len() && i < y.shape.dims.len() {
                    assert(dims_agree(x.shape.dims[i], y.shape.dims[i]));
                }
            }
        }
    }
    if prefixes_agree(y.shape.dims, x.shape.dims) {
        assert forall|i: int| 0 <= i < x.shape.dims.len() && i < y.shape.dims.len() implies dims_agree(
            #[trigger] x.shape.dims[i],
            y.shape.dims[i],
        ) by {
            assert(dims_agree(y.shape.dims[i], x.shape.dims[i]));
        }
    }
}

/// The meet of two abstract tensors says at least what each of them says.
pub proof fn lemma_meet_refines(x: ATensorView, y: ATensorView)
    requires
        meet_tensor(x, y) is Ok,
    ensures
        refines(meet_tensor(x, y)->Ok_0, x),
        refines(meet_tensor(x, y)->Ok_0, y),
{
    let z = meet_tensor(x, y)->Ok_0;
    assert forall|i: int| 0 <= i < x.shape.dims.len() implies refines_dim(
        z.shape.dims[i],
        #[trigger] x.shape.dims[i],
    ) by {
        if i < y.shape.dims.len() {
            assert(dims_agree(x.shape.dims[i], y.shape.dims[i]));
        }
    }
    assert forall|i: int| 0 <= i < y.shape.dims.len() implies refines_dim(
        z.shape.dims[i],
        #[trigger] y.shape.dims[i],
    ) by {
        if i < x.shape.dims.len() {
            assert(dims_agree(x.shape.dims[i], y.shape.dims[i]));
        }
    }
}

/// Every abstract tensor refines the most general one, and itself.
pub proof fn lemma_refines_reflexive(x: ATensorView)
    ensures
        refines(x, x),
        refines(x, ATensorView::any()),
{
}

impl AType {
    /// The meet of two abstract types.  Fails with `InferenceConflict` where
    /// both are known and differ.
    pub fn meet(&self, other: &AType) -> (r: Result<AType, Error>)
        ensures
            r == meet_type(*self, *other),
    {
        match (*self, *other) {
            (AType::Any, _) => Ok(*other),
            (_, AType::Any) => Ok(*self),
            (AType::Only(x), AType::Only(y)) => if x == y {
                Ok(*self)
            } else {
                Err(Error::InferenceConflict)
            },
        }
    }
}

impl ADimension {
    /// The meet of two abstract dimensions.  Fails with `InferenceConflict`
    /// where both are known and differ.
    pub fn meet(&self, other: &ADimension) -> (r: Result<ADimension, Error>)
        ensures
            r == meet_dim(*self, *other),
    {
        match (*self, *other) {
            (ADimension::Any, _) => Ok(*other),
            (_, ADimension::Any) => Ok(*self),
            (ADimension::Only(x), ADimension::Only(y)) => if x == y {
                Ok(*self)
            } else {
                Err(Error::InferenceConflict)
            },
        }
    }
}

impl AShape {
    /// The meet of two abstract shapes.  Fails with `InferenceConflict` where
    /// the two allow no rank in common or a dimension that both know differs.
    pub fn meet(&self, other: &AShape) -> (r: Result<AShape, Error>)
        ensures
            match r {
                Ok(s) => meet_shape(self@, other@) == Ok::<AShapeView, Error>(s@),
                Err(e) => meet_shape(self@, other@) == Err::<AShapeView, Error>(e),
            },
    {
        let a = self.inner();
        let b = other.inner();
        let a_open = self.is_open();
        let b_open = other.is_open();
        if !a_open && !b_open && a.len() != b.len() {
            return Err(Error::InferenceConflict);
        }
        if !a_open && b_open && b.len() > a.len() {
            return Err(Error::InferenceConflict);
        }
        if a_open && !b_open && a.len() > b.len() {
            return Err(Error::InferenceConflict);
        }
        let n = if a.len() >= b.len() {
            a.len()
        } else {
            b.len()
        };
        let mut dims: Vec<ADimension> = Vec::new();
        let mut i: usize = 0;
        while i < n
            invariant
                i <= n,
                n == merged_dims(a@, b@).len(),
                a@ == self@.dims,
                b@ == other@.dims,
                dims@.len() == i,
                forall|j: int| 0 <= j < i && j < a@.len() && j < b@.len() ==> dims_agree(
                    #[trigger] a@[j],
                    b@[j],
                ),
                forall|j: int| 0 <= j < i ==> #[trigger] dims@[j] == merged_dims(a@, b@)[j],
            decreases n - i,
        {
            if i < a.len() && i < b.len() {
                match a[i].meet(&b[i]) {
                    Ok(d) => {
                        dims.push(d);
                    },
                    Err(e) => {
                        assert(!dims_agree(a@[i as int], b@[i as int]));
                        assert(!prefixes_agree(a@, b@));
                        return Err(e);
                    },
                }
            } else if i < a.len() {
                dims.push(a[i]);
            } else {
                dims.push(b[i]);
            }
            i += 1;
        }
        assert(dims@ =~= merged_dims(a@, b@));
        assert(prefixes_agree(a@, b@));
        if a_open && b_open {
            Ok(AShape::Open(dims))
        } else {
            Ok(AShape::Closed(dims))
        }
    }
}

impl AValue {
    /// The meet of two abstract values.  Fails with `InferenceConflict` where
    /// both are known and differ.
    pub fn meet(&self, other: &AValue) -> (r: Result<AValue, Error>)
        ensures
            match r {
                Ok(v) => meet_value(self@, other@) == Ok::<Option<MatrixView>, Error>(v@),
                Err(e) => meet_value(self@, other@) == Err::<Option<MatrixView>, Error>(e),
            },
    {
        match (self, other) {
            (AValue::Any, _) => Ok(other.clone()),
            (_, AValue::Any) => Ok(self.clone()),
            (AValue::Only(x), AValue::Only(y)) => if x.eq(y) {
                Ok(self.clone())
            } else {
                Err(Error::InferenceConflict)
            },
        }
    }
}

impl ATensor {
    /// The meet of two abstract tensors: the most precise abstract tensor
    /// that says what both say.  Fails with `InferenceConflict` where the
    /// two contradict each other.
    pub fn meet(&self, other: &ATensor) -> (r: Result<ATensor, Error>)
        ensures
            match r {
                Ok(t) => meet_tensor(self@, other@) == Ok::<ATensorView, Error>(t@),
                Err(e) => meet_tensor(self@, other@) == Err::<ATensorView, Error>(e),
            },
    {
        let datatype = match self.datatype.meet(&other.datatype) {
            Ok(datatype) => datatype,
            Err(e) => {
                return Err(e);
            },
        };
        let shape = match self.shape.meet(&other.shape) {
            Ok(shape) => shape,
            Err(e) => {
                return Err(e);
            },
        };
        let value = match self.value.meet(&other.value) {
            Ok(value) => value,
            Err(e) => {
                return Err(e);
            },
        };
        Ok(ATensor { datatype, shape, value })
    }
}

} // verus!

verus! {

impl AShape {
    /// Whether two abstract shapes say the same.
    pub fn same_as(&self, other: &AShape) -> (r: bool)
        ensures
            r == (self@ == other@),
    {
        if self.is_open() != other.is_open() {
            return false;
        }
        let a = self.inner();
        let b = other.inner();
        if a.len() != b.len() {
            return false;
        }
        let mut i: usize = 0;
        while i < a.len()
            invariant
                i <= a.len(),
                a.len() == b.len(),
                a@ == self@.dims,
                b@ == other@.dims,
                self@.open == other@.open,
                forall|j: int| 0 <= j < i ==> a@[j] == b@[j],
            decreases a.len() - i,
        {
            if a[i] != b[i] {
                assert(self@.dims[i as int] != other@.dims[i as int]);
                return false;
            }
            i += 1;
        }
        assert(a@ =~= b@);
        true
    }
}

impl AValue {
    /// Whether two abstract values say the same.
    pub fn same_as(&self, other: &AValue) -> (r: bool)
        ensures
            r == (self@ == other@),
    {
        match (self, other) {
            (AValue::Any, AValue::Any) => true,
            (AValue::Only(x), AValue::Only(y)) => x.eq(y),
            _ => false,
        }
    }
}

impl ATensor {
    /// Whether two abstract tensors say the same.
    pub fn same_as(&self, other: &ATensor) -> (r: bool)
        ensures
            r == (self@ == other@),
    {
        self.datatype == other.datatype && self.shape.same_as(&other.shape) && self.value.same_as(
            &other.value,
        )
    }
}

} // verus!
