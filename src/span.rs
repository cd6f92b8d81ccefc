use vstd::prelude::*;

verus! {

/// Line and column (both 1-based) of byte offset `i` in `s`.
pub open spec fn line_col(s: Seq<u8>, i: nat) -> (nat, nat)
    decreases i,
{
    if i == 0 {
        (1, 1)
    } else {
        let (l, c) = line_col(s, (i - 1) as nat);
        if s[i - 1] == 10u8 {
            (l + 1, 1)
        } else {
            (l, c + 1)
        }
    }
}

/// A contiguous byte range `start..end` of a borrowed source buffer.
#[derive(Clone, Copy, Debug)]
pub struct Span<'a> {
    src: &'a [u8],
    start: usize,
    end: usize,
}

impl<'a> Span<'a> {
    /// The whole buffer.
    pub closed spec fn buffer(self) -> Seq<u8> {
        self.src@
    }

    pub closed spec fn lo(self) -> nat {
        self.start as nat
    }

    pub closed spec fn hi(self) -> nat {
        self.end as nat
    }

    pub open spec fn wf(self) -> bool {
        self.lo() <= self.hi() <= self.buffer().len() < usize::MAX
    }

    pub fn new(src: &'a [u8]) -> (r: Span<'a>)
        requires
            src@.len() < usize::MAX,
        ensures
            r.wf(),
            r.buffer() == src@,
            r.lo() == 0,
            r.hi() == src@.len(),
    {
        Span { src, start: 0, end: src.len() }
    }
}

impl<'a> View for Span<'a> {
    type V = Seq<u8>;

    /// The bytes the span covers.
    open spec fn view(&self) -> Seq<u8> {
        self.buffer().subrange(self.lo() as int, self.hi() as int)
    }
}

impl<'a> Span<'a> {
    pub fn len(&self) -> (r: usize)
        requires
            self.wf(),
        ensures
            r == self@.len(),
    {
        self.end - self.start
    }

    pub fn is_empty(&self) -> (r: bool)
        requires
            self.wf(),
        ensures
            r == (self@.len() == 0),
    {
        self.start == self.end
    }

    /// The byte at offset `i` of the span.
    pub fn at(&self, i: usize) -> (r: u8)
        requires
            self.wf(),
            i < self@.len(),
        ensures
            r == self@[i as int],
    {
        self.src[self.start + i]
    }

    /// Splits into the first `n` bytes and the rest.
    pub fn split_at(&self, n: usize) -> (r: (Span<'a>, Span<'a>))
        requires
            self.wf(),
            n <= self@.len(),
        ensures
            r.0.wf(),
            r.1.wf(),
            r.0.buffer() == self.buffer(),
            r.1.buffer() == self.buffer(),
            r.0.lo() == self.lo(),
            r.0.hi() == self.lo() + n,
            r.1.lo() == self.lo() + n,
            r.1.hi() == self.hi(),
    {
        let mid = self.start + n;
        (Span { src: self.src, start: self.start, end: mid }, Span { src: self.src, start: mid, end: self.end })
    }

    /// The part of the span from offset `a` up to offset `b`.
    pub fn slice(&self, a: usize, b: usize) -> (r: Span<'a>)
        requires
            self.wf(),
            a <= b <= self@.len(),
        ensures
            r.wf(),
            r.buffer() == self.buffer(),
            r.lo() == self.lo() + a,
            r.hi() == self.lo() + b,
    {
        Span { src: self.src, start: self.start + a, end: self.start + b }
    }

    /// Whether the span begins with the bytes `p`.
    pub fn starts_with(&self, p: &[u8]) -> (r: bool)
        requires
            self.wf(),
        ensures
            r == (p@.len() <= self@.len() && self@.subrange(0, p@.len() as int) == p@),
    {
        if p.len() > self.len() {
            return false;
        }
        let mut i: usize = 0;
        while i < p.len()
            invariant
                self.wf(),
                p@.len() <= self@.len(),
                i <= p@.len(),
                forall|j: int| 0 <= j < i ==> self@[j] == p@[j],
            decreases p@.len() - i,
        {
            if self.at(i) != p[i] {
                assert(self@.subrange(0, p@.len() as int)[i as int] != p@[i as int]);
                return false;
            }
            i = i + 1;
        }
        assert(self@.subrange(0, p@.len() as int) =~= p@);
        true
    }

    /// The bytes the span covers.
    pub fn source(&self) -> (r: &'a [u8])
        requires
            self.wf(),
        ensures
            r@ == self@,
    {
        &self.src[self.start..self.end]
    }

    /// Line and column (1-based) of the span's first byte.
    pub fn position(&self) -> (r: (usize, usize))
        requires
            self.wf(),
        ensures
            r.0 as nat == line_col(self.buffer(), self.lo()).0,
            r.1 as nat == line_col(self.buffer(), self.lo()).1,
    {
        let mut line: usize = 1;
        let mut col: usize = 1;
        let mut i: usize = 0;
        while i < self.start
            invariant
                self.wf(),
                i <= self.lo(),
                line as nat == line_col(self.buffer(), i as nat).0,
                col as nat == line_col(self.buffer(), i as nat).1,
                line <= i + 1,
                col <= i + 1,
            decreases self.lo() - i,
        {
            if self.src[i] == 10u8 {
                line = line + 1;
                col = 1;
            } else {
                col = col + 1;
            }
            i = i + 1;
        }
        (line, col)
    }

    /// Line (1-based) of the span's first byte.
    pub fn line(&self) -> (r: usize)
        requires
            self.wf(),
        ensures
            r as nat == line_col(self.buffer(), self.lo()).0,
    {
        self.position().0
    }

    pub fn into_spanned<T>(self, value: T) -> (r: Spanned<'a, T>)
        ensures
            r.value == value,
            r.span == self,
    {
        Spanned { value, span: self }
    }
}

/// A value paired with the span of source it was read from.
#[derive(Debug)]
pub struct Spanned<'a, T> {
    pub value: T,
    pub span: Span<'a>,
}

impl<'a, T: Copy> Spanned<'a, T> {
    pub fn get(&self) -> (r: T)
        ensures
            r == self.value,
    {
        self.value
    }

    pub fn span(&self) -> (r: Span<'a>)
        ensures
            r == self.span,
    {
        self.span
    }

    /// The bytes the value was read from.
    pub fn fragment(&self) -> (r: &'a [u8])
        requires
            self.span.wf(),
        ensures
            r@ == self.span@,
    {
        self.span.source()
    }

    pub fn line(&self) -> (r: usize)
        requires
            self.span.wf(),
        ensures
            r as nat == line_col(self.span.buffer(), self.span.lo()).0,
    {
        self.span.line()
    }

    pub fn position(&self) -> (r: (usize, usize))
        requires
            self.span.wf(),
        ensures
            r.0 as nat == line_col(self.span.buffer(), self.span.lo()).0,
            r.1 as nat == line_col(self.span.buffer(), self.span.lo()).1,
    {
        self.span.position()
    }
}

} // verus!
