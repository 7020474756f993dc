//! Datagrams that a process asked to have sent, copied out of its memory.

use crate::broker::address::BrokerError;
use crate::broker::grant;
use crate::broker::grant::{DatagramCall, DatagramMessage, MmsgOutput};
use crate::broker::machine::{CountWidth, Machine};
use crate::broker::memory;
use crate::broker::memory::{read_child_exact, read_child_values, read_optional_target_addr};
use crate::broker::memory::{usize_register, MemoryRead};
use crate::broker::registers;
use crate::broker::registers::{words_len, ByteOrder};
use crate::broker::syscalls;
use crate::broker::syscalls::{NotificationSyscalls, SendSyscall};
use crate::bytes;
use crate::sys;
use vstd::prelude::*;

verus! {

/// The largest datagram.
pub const MAX_DATAGRAM_BYTES: usize = 65535;

/// The most control data of one datagram.
pub const MAX_DATAGRAM_CONTROL_BYTES: usize = 65535;

/// The most parts of one datagram.
pub const MAX_MESSAGE_IOVECS: usize = 1024;

/// The most datagrams of one call.
pub const MAX_SENDMMSG_MESSAGES: usize = 1024;

/// The words of `struct iovec`: where a part is, and its length.
pub const IOVEC_WORDS: usize = 2;

/// The words of `struct msghdr`.
pub const MSGHDR_WORDS: usize = 7;

/// The words of `struct mmsghdr`: a `struct msghdr`, and how much was sent.
pub const MMSGHDR_WORDS: usize = 8;

/// The size of `struct cmsghdr`: a length, a level and a kind.
pub open spec fn cmsghdr_len() -> int {
    registers::words(1) + 8
}

/// The next place for a control message.
pub open spec fn aligned(end: int) -> int {
    if usize::BITS == 64 {
        (end + 7) / 8 * 8
    } else {
        (end + 3) / 4 * 4
    }
}

/// Whether a length is a whole number of `struct iovec`.
pub open spec fn fills_iovecs(len: nat) -> bool {
    if usize::BITS == 64 {
        len % 16 == 0
    } else {
        len % 8 == 0
    }
}

/// Whether a length is a whole number of `struct mmsghdr`.
pub open spec fn fills_headers(len: nat) -> bool {
    if usize::BITS == 64 {
        len % 64 == 0
    } else {
        len % 32 == 0
    }
}

/// What the memory of a process holds: the bytes a read copies, or why it
/// fails.
pub type Memory = spec_fn(MemoryRead) -> Result<Seq<u8>, BrokerError>;

/// A datagram's header.
#[derive(Clone, Copy, Debug, PartialEq, Eq, Structural)]
pub struct MessageHeader {
    /// The machine on which it was written.
    pub machine: Machine,
    pub name: u64,
    pub name_len: u32,
    pub iov: u64,
    pub iov_count: u64,
    pub control: u64,
    pub control_len: u64,
}

/// What a datagram says.
pub struct MessageView {
    pub addr: Option<Seq<u8>>,
    pub payload: Seq<Seq<u8>>,
    pub control: Seq<u8>,
}

impl View for DatagramMessage {
    type V = MessageView;

    open spec fn view(&self) -> MessageView {
        MessageView {
            addr: grant::option_bytes(self.addr),
            payload: bytes::texts(self.payload@),
            control: self.control@,
        }
    }
}

/// What each datagram says.
pub open spec fn message_views(messages: Seq<DatagramMessage>) -> Seq<MessageView> {
    messages.map_values(|message: DatagramMessage| message@)
}

/// The integer of `len` bytes at `at`.
pub open spec fn field(order: ByteOrder, bytes: Seq<u8>, at: int, len: int) -> int {
    registers::native(order, bytes.subrange(at, at + len)) as int
}

/// The word at `at`.
pub open spec fn word(order: ByteOrder, bytes: Seq<u8>, at: int) -> int {
    field(order, bytes, at, registers::words(1))
}

/// The count in a word of a header.
pub open spec fn counted(machine: Machine, word: int) -> int {
    match machine.counts {
        CountWidth::Word => word,
        CountWidth::Narrow => word % 0x1_0000_0000,
    }
}

/// The count at `at`.
pub open spec fn count_at(machine: Machine, bytes: Seq<u8>, at: int) -> int {
    counted(machine, word(machine.order, bytes, at))
}

/// The header at `at`.
pub open spec fn header_at(machine: Machine, bytes: Seq<u8>, at: int) -> MessageHeader {
    MessageHeader {
        machine,
        name: word(machine.order, bytes, at) as u64,
        name_len: field(machine.order, bytes, at + registers::words(1), 4) as u32,
        iov: word(machine.order, bytes, at + registers::words(2)) as u64,
        iov_count: count_at(machine, bytes, at + registers::words(3)) as u64,
        control: word(machine.order, bytes, at + registers::words(4)) as u64,
        control_len: count_at(machine, bytes, at + registers::words(5)) as u64,
    }
}

fn read_field_word(order: ByteOrder, bytes: &[u8], at: usize) -> (value: u64)
    requires
        at + registers::words(1) <= bytes.len(),
    ensures
        value == word(order, bytes@, at as int),
{
    let len = words_len(1);
    let part = vstd::slice::slice_subrange(bytes, at, at + len);
    assert(part@.take(len as int) =~= bytes@.subrange(at as int, at + len));
    registers::read_word(order, part)
}

fn read_field_u32(order: ByteOrder, bytes: &[u8], at: usize) -> (value: u32)
    requires
        at + 4 <= bytes.len(),
    ensures
        value == field(order, bytes@, at as int, 4),
{
    let part = vstd::slice::slice_subrange(bytes, at, at + 4);
    assert(part@.take(4) =~= bytes@.subrange(at as int, at + 4));
    registers::read_u32(order, part)
}

fn read_count(machine: Machine, bytes: &[u8], at: usize) -> (count: u64)
    requires
        at + registers::words(1) <= bytes.len(),
    ensures
        count == count_at(machine, bytes@, at as int),
{
    let word = read_field_word(machine.order, bytes, at);
    match machine.counts {
        CountWidth::Word => word,
        CountWidth::Narrow => word % 0x1_0000_0000,
    }
}

fn read_header(machine: Machine, bytes: &[u8], at: usize) -> (header: MessageHeader)
    requires
        at + registers::words(MSGHDR_WORDS as int) <= bytes.len(),
    ensures
        header == header_at(machine, bytes@, at as int),
{
    MessageHeader {
        machine,
        name: read_field_word(machine.order, bytes, at),
        name_len: read_field_u32(machine.order, bytes, at + words_len(1)),
        iov: read_field_word(machine.order, bytes, at + words_len(2)),
        iov_count: read_count(machine, bytes, at + words_len(3)),
        control: read_field_word(machine.order, bytes, at + words_len(4)),
        control_len: read_count(machine, bytes, at + words_len(5)),
    }
}

/// A read that has to give all that it asks for.
pub open spec fn whole(
    reply: Result<Seq<u8>, BrokerError>,
    len: usize,
) -> Result<Seq<u8>, BrokerError> {
    match reply {
        Ok(bytes) => if bytes.len() == len {
            Ok(bytes)
        } else {
            Err(BrokerError::BadAddress)
        },
        Err(error) => Err(error),
    }
}

/// What a read of memory gives, where a read of nothing gives nothing.
pub open spec fn fetched(
    mem: Memory,
    read: Result<Option<MemoryRead>, BrokerError>,
) -> Result<Seq<u8>, BrokerError> {
    match read {
        Ok(Some(range)) => whole(mem(range), range.len),
        Ok(None) => Ok(Seq::empty()),
        Err(error) => Err(error),
    }
}

/// The read of `count` values of `size` bytes.
pub open spec fn values_read(
    target: u64,
    count: int,
    size: int,
) -> Result<Option<MemoryRead>, BrokerError> {
    if count == 0 {
        Ok(None)
    } else if size * count > usize::MAX {
        Err(BrokerError::BadAddress)
    } else {
        memory::exact(target, (size * count) as usize)
    }
}

/// The control messages that leave source, interface and route alone: hop
/// limits, traffic classes and the size of segments.
pub open spec fn control_supported(level: i32, kind: i32) -> bool {
    ||| level == sys::IPPROTO_IP && (kind == sys::IP_TTL || kind == sys::IP_TOS)
    ||| level == sys::IPPROTO_IPV6 && (kind == sys::IPV6_HOPLIMIT || kind == sys::IPV6_TCLASS)
    ||| level == sys::SOL_UDP && kind == sys::UDP_SEGMENT
}

/// Whether the control data from `offset` on is well formed and holds nothing
/// but supported messages.
pub open spec fn controls_allowed(machine: Machine, control: Seq<u8>, offset: int) -> bool
    decreases control.len() + 8 - offset,
{
    if offset >= control.len() {
        true
    } else if control.len() - offset < cmsghdr_len() {
        false
    } else {
        let len = count_at(machine, control, offset);
        let level = registers::signed(
            field(machine.order, control, offset + registers::words(1), 4),
        ) as i32;
        let kind = registers::signed(
            field(machine.order, control, offset + registers::words(1) + 4, 4),
        ) as i32;
        &&& cmsghdr_len() <= len <= control.len() - offset
        &&& control_supported(level, kind)
        &&& offset + len + registers::words(1) - 1 <= usize::MAX
        &&& controls_allowed(machine, control, aligned(offset + len))
    }
}

/// Whether control data is well formed and holds nothing but supported
/// messages. Anything unknown is refused.
pub fn validate_datagram_control(machine: Machine, control: &[u8]) -> (result: Result<(), BrokerError>)
    ensures
        result == (if controls_allowed(machine, control@, 0) {
            Ok::<(), BrokerError>(())
        } else {
            Err(BrokerError::SystemCall { errno: sys::EINVAL })
        }),
{
    let refused = Err(BrokerError::SystemCall { errno: sys::EINVAL });
    let width = words_len(1);
    let header_len = width + 8;
    let mut offset: usize = 0;
    while offset < control.len()
        invariant
            refused == Err::<(), _>(BrokerError::SystemCall { errno: sys::EINVAL }),
            header_len == cmsghdr_len(),
            width == registers::words(1),
            controls_allowed(machine, control@, 0) == controls_allowed(
                machine,
                control@,
                offset as int,
            ),
        decreases control.len() + 8 - offset,
    {
        if control.len() - offset < header_len {
            return refused;
        }
        let len = read_count(machine, control, offset);
        if len < header_len as u64 || len > (control.len() - offset) as u64 {
            return refused;
        }
        let level = registers::cast_signed(read_field_u32(machine.order, control, offset + width));
        let kind = registers::cast_signed(read_field_u32(machine.order, control, offset + width + 4));
        let supported = (level == sys::IPPROTO_IP && (kind == sys::IP_TTL || kind
            == sys::IP_TOS)) || (level == sys::IPPROTO_IPV6 && (kind == sys::IPV6_HOPLIMIT || kind
            == sys::IPV6_TCLASS)) || (level == sys::SOL_UDP && kind == sys::UDP_SEGMENT);
        if !supported {
            return refused;
        }
        let end: usize = offset + len as usize;
        if end > usize::MAX - (width - 1) {
            return refused;
        }
        offset = if usize::BITS == 64 {
            (end + 7) / 8 * 8
        } else {
            (end + 3) / 4 * 4
        };
    }
    Ok(())
}

/// The last stage of a datagram: its control data has come in.
pub open spec fn with_control(
    machine: Machine,
    addr: Option<Seq<u8>>,
    payload: Seq<Seq<u8>>,
    control: Seq<u8>,
) -> Result<MessageView, BrokerError> {
    if controls_allowed(machine, control, 0) {
        Ok(MessageView { addr, payload, control })
    } else {
        Err(BrokerError::SystemCall { errno: sys::EINVAL })
    }
}

/// The read of a datagram's control data.
pub open spec fn control_read(header: MessageHeader) -> Result<Option<MemoryRead>, BrokerError> {
    if header.control_len > MAX_DATAGRAM_CONTROL_BYTES {
        Err(BrokerError::SystemCall { errno: header.machine.errors.enobufs })
    } else {
        memory::exact(header.control, header.control_len as usize)
    }
}

/// A datagram from its control data on.
pub open spec fn from_control(
    mem: Memory,
    header: MessageHeader,
    addr: Option<Seq<u8>>,
    payload: Seq<Seq<u8>>,
) -> Result<MessageView, BrokerError> {
    match fetched(mem, control_read(header)) {
        Ok(control) => with_control(header.machine, addr, payload, control),
        Err(error) => Err(error),
    }
}

/// A datagram from part `at` of its payload on, `total` bytes having come in.
pub open spec fn from_payload(
    mem: Memory,
    header: MessageHeader,
    addr: Option<Seq<u8>>,
    iovecs: Seq<u8>,
    at: nat,
    total: int,
    payload: Seq<Seq<u8>>,
) -> Result<MessageView, BrokerError>
    decreases iovecs.len() - at,
{
    if registers::words(IOVEC_WORDS * at) >= iovecs.len() {
        from_control(mem, header, addr, payload)
    } else {
        let base = word(header.machine.order, iovecs, registers::words(IOVEC_WORDS * at)) as u64;
        let len = word(header.machine.order, iovecs, registers::words(IOVEC_WORDS * at + 1));
        if total + len > MAX_DATAGRAM_BYTES {
            Err(BrokerError::SystemCall { errno: header.machine.errors.emsgsize })
        } else {
            match fetched(mem, memory::exact(base, len as usize)) {
                Ok(part) => from_payload(
                    mem,
                    header,
                    addr,
                    iovecs,
                    at + 1,
                    total + len,
                    payload.push(part),
                ),
                Err(error) => Err(error),
            }
        }
    }
}

/// The read of a datagram's parts.
pub open spec fn iovecs_read(header: MessageHeader) -> Result<Option<MemoryRead>, BrokerError> {
    if header.iov_count > MAX_MESSAGE_IOVECS {
        Err(BrokerError::SystemCall { errno: header.machine.errors.emsgsize })
    } else {
        values_read(header.iov, header.iov_count as int, registers::words(IOVEC_WORDS as int))
    }
}

/// A datagram from its parts on.
pub open spec fn from_iovecs(
    mem: Memory,
    header: MessageHeader,
    addr: Option<Seq<u8>>,
) -> Result<MessageView, BrokerError> {
    match fetched(mem, iovecs_read(header)) {
        Ok(iovecs) => from_payload(mem, header, addr, iovecs, 0, 0, Seq::empty()),
        Err(error) => Err(error),
    }
}

/// The datagram that a header describes: its address, its payload part by
/// part and its control data, each bounded before it is read.
pub open spec fn message_in(mem: Memory, header: MessageHeader) -> Result<MessageView, BrokerError> {
    match memory::optional_address(header.name, header.name_len as usize) {
        Ok(Some(range)) => match whole(mem(range), range.len) {
            Ok(addr) => from_iovecs(mem, header, Some(addr)),
            Err(error) => Err(error),
        },
        Ok(None) => from_iovecs(mem, header, None),
        Err(error) => Err(error),
    }
}

/// How far the copy of a datagram has come: what the pending read is of.
pub enum MessageStage {
    Addr,
    Iovecs { addr: Option<Vec<u8>> },
    Payload {
        addr: Option<Vec<u8>>,
        iovecs: Vec<u8>,
        at: usize,
        total: usize,
        payload: Vec<Vec<u8>>,
    },
    Control { addr: Option<Vec<u8>>, payload: Vec<Vec<u8>> },
}

/// A datagram that waits for a read.
pub struct MessageCopy {
    pub header: MessageHeader,
    pub stage: MessageStage,
    pub wanted: MemoryRead,
}

/// What the copy of a datagram came to.
pub enum MessageStep {
    Read(MessageCopy),
    Done(Result<DatagramMessage, BrokerError>),
}

/// Whether the parts and the counts of a copy fit together.
pub open spec fn copy_valid(copy: MessageCopy) -> bool {
    match copy.stage {
        MessageStage::Payload { iovecs, at, total, .. } => {
            &&& fills_iovecs(iovecs@.len())
            &&& iovecs@.len() <= registers::words(IOVEC_WORDS * MAX_MESSAGE_IOVECS)
            &&& registers::words(IOVEC_WORDS * at) < iovecs@.len()
            &&& total <= MAX_DATAGRAM_BYTES
        },
        MessageStage::Iovecs { .. } => fills_iovecs(copy.wanted.len as nat) && copy.wanted.len
            <= registers::words(IOVEC_WORDS * MAX_MESSAGE_IOVECS),
        _ => true,
    }
}

/// What a copy comes to over a memory.
pub open spec fn copy_outcome(copy: MessageCopy, mem: Memory) -> Result<MessageView, BrokerError> {
    match whole(mem(copy.wanted), copy.wanted.len) {
        Err(error) => Err(error),
        Ok(read) => match copy.stage {
            MessageStage::Addr => from_iovecs(mem, copy.header, Some(read)),
            MessageStage::Iovecs { addr } => from_payload(
                mem,
                copy.header,
                grant::option_bytes(addr),
                read,
                0,
                0,
                Seq::empty(),
            ),
            MessageStage::Payload { addr, iovecs, at, total, payload } => from_payload(
                mem,
                copy.header,
                grant::option_bytes(addr),
                iovecs@,
                at as nat + 1,
                total as int,
                bytes::texts(payload@).push(read),
            ),
            MessageStage::Control { addr, payload } => with_control(
                copy.header.machine,
                grant::option_bytes(addr),
                bytes::texts(payload@),
                read,
            ),
        },
    }
}

/// What a step comes to over a memory.
pub open spec fn step_outcome(step: MessageStep, mem: Memory) -> Result<MessageView, BrokerError> {
    match step {
        MessageStep::Read(copy) => copy_outcome(copy, mem),
        MessageStep::Done(Ok(message)) => Ok(message@),
        MessageStep::Done(Err(error)) => Err(error),
    }
}

/// Whether a step can be gone on with.
pub open spec fn step_valid(step: MessageStep) -> bool {
    step matches MessageStep::Read(copy) ==> copy_valid(copy)
}

fn finish_message(
    machine: Machine,
    addr: Option<Vec<u8>>,
    payload: Vec<Vec<u8>>,
    control: Vec<u8>,
) -> (step: MessageStep)
    ensures
        step_valid(step),
        forall|mem: Memory| #[trigger]
            step_outcome(step, mem) == with_control(
                machine,
                grant::option_bytes(addr),
                bytes::texts(payload@),
                control@,
            ),
{
    match validate_datagram_control(machine, control.as_slice()) {
        Ok(()) => MessageStep::Done(Ok(DatagramMessage { addr, payload, control })),
        Err(error) => MessageStep::Done(Err(error)),
    }
}

fn go_control(
    header: MessageHeader,
    addr: Option<Vec<u8>>,
    payload: Vec<Vec<u8>>,
) -> (step: MessageStep)
    ensures
        step_valid(step),
        forall|mem: Memory| #[trigger]
            step_outcome(step, mem) == from_control(
                mem,
                header,
                grant::option_bytes(addr),
                bytes::texts(payload@),
            ),
{
    if header.control_len > MAX_DATAGRAM_CONTROL_BYTES as u64 {
        return MessageStep::Done(Err(BrokerError::SystemCall { errno: header.machine.errors.enobufs }));
    }
    match read_child_exact(header.control, header.control_len as usize) {
        Ok(Some(wanted)) => MessageStep::Read(
            MessageCopy { header, stage: MessageStage::Control { addr, payload }, wanted },
        ),
        Ok(None) => {
            let control: Vec<u8> = Vec::new();
            assert(control@ =~= Seq::empty());
            finish_message(header.machine, addr, payload, control)
        },
        Err(error) => MessageStep::Done(Err(error)),
    }
}

fn go_payload(
    header: MessageHeader,
    addr: Option<Vec<u8>>,
    iovecs: Vec<u8>,
    from: usize,
    so_far: usize,
    parts: Vec<Vec<u8>>,
) -> (step: MessageStep)
    requires
        fills_iovecs(iovecs@.len()),
        iovecs@.len() <= registers::words(IOVEC_WORDS * MAX_MESSAGE_IOVECS),
        registers::words(IOVEC_WORDS * from) <= iovecs@.len(),
        so_far <= MAX_DATAGRAM_BYTES,
    ensures
        step_valid(step),
        forall|mem: Memory| #[trigger]
            step_outcome(step, mem) == from_payload(
                mem,
                header,
                grant::option_bytes(addr),
                iovecs@,
                from as nat,
                so_far as int,
                bytes::texts(parts@),
            ),
{
    let mut at: usize = from;
    let mut total: usize = so_far;
    let mut payload = parts;
    while words_len(IOVEC_WORDS * at) < iovecs.len()
        invariant
            fills_iovecs(iovecs@.len()),
            iovecs@.len() <= registers::words(IOVEC_WORDS * MAX_MESSAGE_IOVECS),
            at <= MAX_MESSAGE_IOVECS,
            registers::words(IOVEC_WORDS * at) <= iovecs@.len(),
            total <= MAX_DATAGRAM_BYTES,
            forall|mem: Memory|
                #![trigger from_payload(
                    mem,
                    header,
                    grant::option_bytes(addr),
                    iovecs@,
                    from as nat,
                    so_far as int,
                    bytes::texts(parts@),
                )]
                from_payload(
                    mem,
                    header,
                    grant::option_bytes(addr),
                    iovecs@,
                    from as nat,
                    so_far as int,
                    bytes::texts(parts@),
                ) == from_payload(
                    mem,
                    header,
                    grant::option_bytes(addr),
                    iovecs@,
                    at as nat,
                    total as int,
                    bytes::texts(payload@),
                ),
        decreases iovecs.len() - registers::words(IOVEC_WORDS * at),
    {
        let base = read_field_word(
            header.machine.order,
            iovecs.as_slice(),
            words_len(IOVEC_WORDS * at),
        );
        let len = read_field_word(
            header.machine.order,
            iovecs.as_slice(),
            words_len(IOVEC_WORDS * at + 1),
        );
        if len > (MAX_DATAGRAM_BYTES - total) as u64 {
            return MessageStep::Done(Err(BrokerError::SystemCall { errno: header.machine.errors.emsgsize }));
        }
        match read_child_exact(base, len as usize) {
            Ok(Some(wanted)) => {
                total += len as usize;
                return MessageStep::Read(
                    MessageCopy {
                        header,
                        stage: MessageStage::Payload { addr, iovecs, at, total, payload },
                        wanted,
                    },
                );
            },
            Ok(None) => {
                let empty: Vec<u8> = Vec::new();
                let ghost before = bytes::texts(payload@);
                payload.push(empty);
                assert(bytes::texts(payload@) =~= before.push(Seq::empty()));
                at += 1;
            },
            Err(error) => {
                return MessageStep::Done(Err(error));
            },
        }
    }
    go_control(header, addr, payload)
}

proof fn lemma_iovecs(count: int)
    requires
        0 <= count,
    ensures
        registers::words(IOVEC_WORDS as int) * count == registers::words(IOVEC_WORDS * count),
        fills_iovecs(registers::words(IOVEC_WORDS * count) as nat),
{
    let size = registers::words(IOVEC_WORDS as int);
    if usize::BITS == 64 {
        assert(size * count == 16 * count) by (nonlinear_arith)
            requires
                size == 16,
        ;
    } else {
        assert(size * count == 8 * count) by (nonlinear_arith)
            requires
                size == 8,
        ;
    }
}

proof fn lemma_headers(count: int)
    requires
        0 <= count,
    ensures
        registers::words(MMSGHDR_WORDS as int) * count == registers::words(MMSGHDR_WORDS * count),
        fills_headers(registers::words(MMSGHDR_WORDS * count) as nat),
{
    let size = registers::words(MMSGHDR_WORDS as int);
    if usize::BITS == 64 {
        assert(size * count == 64 * count) by (nonlinear_arith)
            requires
                size == 64,
        ;
    } else {
        assert(size * count == 32 * count) by (nonlinear_arith)
            requires
                size == 32,
        ;
    }
}

fn go_iovecs(header: MessageHeader, addr: Option<Vec<u8>>) -> (step: MessageStep)
    ensures
        step_valid(step),
        forall|mem: Memory| #[trigger]
            step_outcome(step, mem) == from_iovecs(mem, header, grant::option_bytes(addr)),
{
    if header.iov_count > MAX_MESSAGE_IOVECS as u64 {
        return MessageStep::Done(Err(BrokerError::SystemCall { errno: header.machine.errors.emsgsize }));
    }
    proof {
        lemma_iovecs(header.iov_count as int);
    }
    match read_child_values(header.iov, header.iov_count as usize, words_len(IOVEC_WORDS)) {
        Ok(Some(wanted)) => MessageStep::Read(
            MessageCopy { header, stage: MessageStage::Iovecs { addr }, wanted },
        ),
        Ok(None) => {
            let iovecs: Vec<u8> = Vec::new();
            let payload: Vec<Vec<u8>> = Vec::new();
            assert(iovecs@ =~= Seq::empty());
            assert(bytes::texts(payload@) =~= Seq::empty());
            go_payload(header, addr, iovecs, 0, 0, payload)
        },
        Err(error) => MessageStep::Done(Err(error)),
    }
}

/// Starts the copy of a datagram.
pub fn copy_datagram_message(header: MessageHeader) -> (step: MessageStep)
    ensures
        step_valid(step),
        forall|mem: Memory| #[trigger] step_outcome(step, mem) == message_in(mem, header),
{
    match read_optional_target_addr(header.name, header.name_len as usize) {
        Ok(Some(wanted)) => MessageStep::Read(
            MessageCopy { header, stage: MessageStage::Addr, wanted },
        ),
        Ok(None) => go_iovecs(header, None),
        Err(error) => MessageStep::Done(Err(error)),
    }
}

impl MessageCopy {
    /// Goes on with what the pending read copied.
    pub fn advance(self, reply: Vec<u8>) -> (step: MessageStep)
        requires
            copy_valid(self),
        ensures
            step_valid(step),
            forall|mem: Memory|
                mem(self.wanted) == Ok::<Seq<u8>, BrokerError>(reply@) ==> #[trigger] step_outcome(
                    step,
                    mem,
                ) == copy_outcome(self, mem),
    {
        if reply.len() != self.wanted.len {
            return MessageStep::Done(Err(BrokerError::BadAddress));
        }
        match self.stage {
            MessageStage::Addr => go_iovecs(self.header, Some(reply)),
            MessageStage::Iovecs { addr } => {
                let payload: Vec<Vec<u8>> = Vec::new();
                assert(bytes::texts(payload@) =~= Seq::empty());
                go_payload(self.header, addr, reply, 0, 0, payload)
            },
            MessageStage::Payload { addr, iovecs, at, total, payload } => {
                let mut payload = payload;
                let ghost before = bytes::texts(payload@);
                payload.push(reply);
                assert(bytes::texts(payload@) =~= before.push(reply@));
                go_payload(self.header, addr, iovecs, at + 1, total, payload)
            },
            MessageStage::Control { addr, payload } => finish_message(
                self.header.machine,
                addr,
                payload,
                reply,
            ),
        }
    }
}

/// The flags of a call that sends. A send without a copy would go on reading
/// memory after the call, so it is refused.
pub open spec fn send_flags(machine: Machine, value: u64) -> Result<i32, BrokerError> {
    if registers::int_register(value) & sys::MSG_ZEROCOPY != 0 {
        Err(BrokerError::SystemCall { errno: machine.errors.eopnotsupp })
    } else {
        Ok(registers::int_register(value))
    }
}

/// The flags of a call that sends.
pub fn datagram_send_flags(machine: Machine, value: u64) -> (flags: Result<i32, BrokerError>)
    ensures
        flags == send_flags(machine, value),
{
    let flags = registers::syscall_i32(value);
    if flags & sys::MSG_ZEROCOPY != 0 {
        return Err(BrokerError::SystemCall { errno: machine.errors.eopnotsupp });
    }
    Ok(flags)
}

/// The call and its datagrams, or why it is refused.
pub type RequestView = Result<(DatagramCall, Seq<MessageView>), BrokerError>;

/// A `sendto` whose payload and address have come in.
pub open spec fn sendto_done(
    machine: Machine,
    args: Seq<u64>,
    payload: Seq<u8>,
    addr: Option<Seq<u8>>,
) -> RequestView {
    match send_flags(machine, args[3]) {
        Ok(flags) => Ok(
            (
                DatagramCall::SendTo { flags },
                seq![MessageView { addr, payload: seq![payload], control: Seq::empty() }],
            ),
        ),
        Err(error) => Err(error),
    }
}

/// A `sendto` from its address on.
pub open spec fn sendto_from_addr(
    mem: Memory,
    machine: Machine,
    args: Seq<u64>,
    payload: Seq<u8>,
) -> RequestView {
    if args[5] > usize::MAX {
        Err(BrokerError::InvalidAddress)
    } else {
        match memory::optional_address(args[4], args[5] as usize) {
            Ok(Some(range)) => match whole(mem(range), range.len) {
                Ok(addr) => sendto_done(machine, args, payload, Some(addr)),
                Err(error) => Err(error),
            },
            Ok(None) => sendto_done(machine, args, payload, None),
            Err(error) => Err(error),
        }
    }
}

/// The read of the payload of a `sendto`.
pub open spec fn sendto_read(machine: Machine, args: Seq<u64>) -> Result<Option<MemoryRead>, BrokerError> {
    if args[2] > MAX_DATAGRAM_BYTES {
        Err(BrokerError::SystemCall { errno: machine.errors.emsgsize })
    } else {
        memory::exact(args[1], args[2] as usize)
    }
}

/// A `sendmsg` whose header has come in.
pub open spec fn sendmsg_from_header(
    mem: Memory,
    machine: Machine,
    args: Seq<u64>,
    header: Seq<u8>,
) -> RequestView {
    match send_flags(machine, args[2]) {
        Ok(flags) => match message_in(mem, header_at(machine, header, 0)) {
            Ok(message) => Ok((DatagramCall::SendMsg { flags }, seq![message])),
            Err(error) => Err(error),
        },
        Err(error) => Err(error),
    }
}

/// A `sendmmsg` whose datagrams have come in.
pub open spec fn sendmmsg_done(
    machine: Machine,
    args: Seq<u64>,
    pid: i32,
    done: Seq<MessageView>,
) -> RequestView {
    match send_flags(machine, args[3]) {
        Ok(flags) => Ok(
            (
                DatagramCall::SendMmsg { flags, output: MmsgOutput { pid, base: args[1] as usize } },
                done,
            ),
        ),
        Err(error) => Err(error),
    }
}

/// A `sendmmsg` from datagram `at` on.
pub open spec fn sendmmsg_from(
    mem: Memory,
    machine: Machine,
    args: Seq<u64>,
    pid: i32,
    headers: Seq<u8>,
    at: nat,
    done: Seq<MessageView>,
) -> RequestView
    decreases headers.len() - at,
{
    if registers::words(MMSGHDR_WORDS * at) >= headers.len() {
        sendmmsg_done(machine, args, pid, done)
    } else {
        match message_in(mem, header_at(machine, headers, registers::words(MMSGHDR_WORDS * at))) {
            Ok(message) => sendmmsg_from(
                mem,
                machine,
                args,
                pid,
                headers,
                at + 1,
                done.push(message),
            ),
            Err(error) => Err(error),
        }
    }
}

/// The read of the headers of a `sendmmsg`.
pub open spec fn sendmmsg_read(args: Seq<u64>) -> Result<Option<MemoryRead>, BrokerError> {
    if args[2] % 0x1_0000_0000 > MAX_SENDMMSG_MESSAGES {
        Err(BrokerError::SystemCall { errno: sys::EINVAL })
    } else if args[1] > usize::MAX {
        Err(BrokerError::BadAddress)
    } else {
        values_read(
            args[1],
            (args[2] % 0x1_0000_0000) as int,
            registers::words(MMSGHDR_WORDS as int),
        )
    }
}

/// The call and its datagrams as the memory of the process holds them.
pub open spec fn request_in(
    mem: Memory,
    machine: Machine,
    call: SendSyscall,
    args: Seq<u64>,
    pid: i32,
) -> RequestView {
    match call {
        SendSyscall::SendTo => match fetched(mem, sendto_read(machine, args)) {
            Ok(payload) => sendto_from_addr(mem, machine, args, payload),
            Err(error) => Err(error),
        },
        SendSyscall::SendMsg => match fetched(
            mem,
            memory::exact(args[1], registers::words(MSGHDR_WORDS as int) as usize),
        ) {
            Ok(header) => sendmsg_from_header(mem, machine, args, header),
            Err(error) => Err(error),
        },
        SendSyscall::SendMmsg => match fetched(mem, sendmmsg_read(args)) {
            Ok(headers) => sendmmsg_from(mem, machine, args, pid, headers, 0, Seq::empty()),
            Err(error) => Err(error),
        },
    }
}

/// How far the copy of a call has come: what the pending read is of.
pub enum CopyStage {
    Payload { wanted: MemoryRead },
    Addr { payload: Vec<u8>, wanted: MemoryRead },
    Header { wanted: MemoryRead },
    Message { flags: i32, copy: MessageCopy },
    Headers { wanted: MemoryRead },
    Messages {
        headers: Vec<u8>,
        at: usize,
        messages: Vec<DatagramMessage>,
        copy: MessageCopy,
    },
}

/// A call that waits for a read of the process's memory.
pub struct DatagramCopy {
    pub machine: Machine,
    pub args: [u64; 6],
    pub pid: i32,
    pub stage: CopyStage,
}

/// What the copy of a call came to.
pub enum DatagramCopyStep {
    Read(DatagramCopy),
    Done(Result<(DatagramCall, Vec<DatagramMessage>), BrokerError>),
}

/// The pending read of a copy.
pub open spec fn wanted_by(copy: DatagramCopy) -> MemoryRead {
    match copy.stage {
        CopyStage::Payload { wanted } => wanted,
        CopyStage::Addr { wanted, .. } => wanted,
        CopyStage::Header { wanted } => wanted,
        CopyStage::Message { copy, .. } => copy.wanted,
        CopyStage::Headers { wanted } => wanted,
        CopyStage::Messages { copy, .. } => copy.wanted,
    }
}

/// Whether headers fill up a whole number of datagrams within bounds.
pub open spec fn headers_valid(len: nat) -> bool {
    fills_headers(len) && len <= registers::words(MMSGHDR_WORDS * MAX_SENDMMSG_MESSAGES)
}

/// Whether the parts of a copy fit together.
pub open spec fn request_valid(copy: DatagramCopy) -> bool {
    match copy.stage {
        CopyStage::Header { wanted } => wanted.len == registers::words(
            MSGHDR_WORDS as int,
        ),
        CopyStage::Message { copy, .. } => copy_valid(copy),
        CopyStage::Headers { wanted } => headers_valid(wanted.len as nat) && copy.args@[1]
            <= usize::MAX,
        CopyStage::Messages { headers, at, copy: message, .. } => headers_valid(headers@.len())
            && registers::words(MMSGHDR_WORDS * at) < headers@.len() && copy_valid(message) && copy.args@[1]
            <= usize::MAX,
        _ => true,
    }
}

/// What a copy comes to over a memory.
pub open spec fn request_outcome(copy: DatagramCopy, mem: Memory) -> RequestView {
    match copy.stage {
        CopyStage::Payload { wanted } => match whole(mem(wanted), wanted.len) {
            Ok(read) => sendto_from_addr(mem, copy.machine, copy.args@, read),
            Err(error) => Err(error),
        },
        CopyStage::Addr { payload, wanted } => match whole(mem(wanted), wanted.len) {
            Ok(read) => sendto_done(copy.machine, copy.args@, payload@, Some(read)),
            Err(error) => Err(error),
        },
        CopyStage::Header { wanted } => match whole(mem(wanted), wanted.len) {
            Ok(read) => sendmsg_from_header(mem, copy.machine, copy.args@, read),
            Err(error) => Err(error),
        },
        CopyStage::Message { flags, copy } => match copy_outcome(copy, mem) {
            Ok(message) => Ok((DatagramCall::SendMsg { flags }, seq![message])),
            Err(error) => Err(error),
        },
        CopyStage::Headers { wanted } => match whole(mem(wanted), wanted.len) {
            Ok(read) => sendmmsg_from(
                mem,
                copy.machine,
                copy.args@,
                copy.pid,
                read,
                0,
                Seq::empty(),
            ),
            Err(error) => Err(error),
        },
        CopyStage::Messages { headers, at, messages, copy: message } => match copy_outcome(
            message,
            mem,
        ) {
            Ok(read) => sendmmsg_from(
                mem,
                copy.machine,
                copy.args@,
                copy.pid,
                headers@,
                at as nat + 1,
                message_views(messages@).push(read),
            ),
            Err(error) => Err(error),
        },
    }
}

/// What a step comes to over a memory.
pub open spec fn request_step_outcome(step: DatagramCopyStep, mem: Memory) -> RequestView {
    match step {
        DatagramCopyStep::Read(copy) => request_outcome(copy, mem),
        DatagramCopyStep::Done(Ok((call, messages))) => Ok((call, message_views(messages@))),
        DatagramCopyStep::Done(Err(error)) => Err(error),
    }
}

/// Whether a step can be gone on with.
pub open spec fn request_step_valid(step: DatagramCopyStep) -> bool {
    step matches DatagramCopyStep::Read(copy) ==> request_valid(copy)
}

fn finish_sendto(
    machine: Machine,
    args: [u64; 6],
    payload: Vec<u8>,
    addr: Option<Vec<u8>>,
) -> (step: DatagramCopyStep)
    ensures
        request_step_valid(step),
        forall|mem: Memory| #[trigger]
            request_step_outcome(step, mem) == sendto_done(
                machine,
                args@,
                payload@,
                grant::option_bytes(addr),
            ),
{
    match datagram_send_flags(machine, args[3]) {
        Ok(flags) => {
            let ghost bytes = payload@;
            let ghost target = grant::option_bytes(addr);
            let mut parts: Vec<Vec<u8>> = Vec::new();
            parts.push(payload);
            let mut messages: Vec<DatagramMessage> = Vec::new();
            messages.push(DatagramMessage { addr, payload: parts, control: Vec::new() });
            proof {
                let view = messages@[0]@;
                assert(view.payload =~= seq![bytes]);
                assert(view.control =~= Seq::empty());
                assert(message_views(messages@) =~= seq![
                    MessageView { addr: target, payload: seq![bytes], control: Seq::empty() },
                ]);
            }
            DatagramCopyStep::Done(Ok((DatagramCall::SendTo { flags }, messages)))
        },
        Err(error) => DatagramCopyStep::Done(Err(error)),
    }
}

fn go_sendto_addr(
    machine: Machine,
    args: [u64; 6],
    pid: i32,
    payload: Vec<u8>,
) -> (step: DatagramCopyStep)
    ensures
        request_step_valid(step),
        forall|mem: Memory| #[trigger]
            request_step_outcome(step, mem) == sendto_from_addr(mem, machine, args@, payload@),
{
    let len = match usize_register(args[5]) {
        Some(len) => len,
        None => return DatagramCopyStep::Done(Err(BrokerError::InvalidAddress)),
    };
    match read_optional_target_addr(args[4], len) {
        Ok(Some(wanted)) => DatagramCopyStep::Read(
            DatagramCopy { machine, args, pid, stage: CopyStage::Addr { payload, wanted } },
        ),
        Ok(None) => finish_sendto(machine, args, payload, None),
        Err(error) => DatagramCopyStep::Done(Err(error)),
    }
}

fn finish_sendmsg(flags: i32, message: DatagramMessage) -> (step: DatagramCopyStep)
    ensures
        request_step_valid(step),
        forall|mem: Memory| #[trigger]
            request_step_outcome(step, mem) == Ok::<(DatagramCall, Seq<MessageView>), BrokerError>(
                (DatagramCall::SendMsg { flags }, seq![message@]),
            ),
{
    let mut messages: Vec<DatagramMessage> = Vec::new();
    messages.push(message);
    assert(message_views(messages@) =~= seq![message@]);
    DatagramCopyStep::Done(Ok((DatagramCall::SendMsg { flags }, messages)))
}

fn go_sendmsg(
    machine: Machine,
    args: [u64; 6],
    pid: i32,
    header: Vec<u8>,
) -> (step: DatagramCopyStep)
    requires
        header@.len() == registers::words(MSGHDR_WORDS as int),
    ensures
        request_step_valid(step),
        forall|mem: Memory| #[trigger]
            request_step_outcome(step, mem) == sendmsg_from_header(mem, machine, args@, header@),
{
    let flags = match datagram_send_flags(machine, args[2]) {
        Ok(flags) => flags,
        Err(error) => return DatagramCopyStep::Done(Err(error)),
    };
    let started = copy_datagram_message(read_header(machine, header.as_slice(), 0));
    assert forall|mem: Memory| #[trigger]
        message_in(mem, header_at(machine, header@, 0)) == step_outcome(started, mem) by {}
    match started {
        MessageStep::Read(copy) => DatagramCopyStep::Read(
            DatagramCopy { machine, args, pid, stage: CopyStage::Message { flags, copy } },
        ),
        MessageStep::Done(Ok(message)) => finish_sendmsg(flags, message),
        MessageStep::Done(Err(error)) => DatagramCopyStep::Done(Err(error)),
    }
}

fn finish_sendmmsg(
    machine: Machine,
    args: [u64; 6],
    pid: i32,
    messages: Vec<DatagramMessage>,
) -> (step: DatagramCopyStep)
    requires
        args@[1] <= usize::MAX,
    ensures
        request_step_valid(step),
        forall|mem: Memory| #[trigger]
            request_step_outcome(step, mem) == sendmmsg_done(machine, args@, pid, message_views(messages@)),
{
    match datagram_send_flags(machine, args[3]) {
        Ok(flags) => DatagramCopyStep::Done(
            Ok(
                (
                    DatagramCall::SendMmsg {
                        flags,
                        output: MmsgOutput { pid, base: args[1] as usize },
                    },
                    messages,
                ),
            ),
        ),
        Err(error) => DatagramCopyStep::Done(Err(error)),
    }
}

fn go_messages(
    machine: Machine,
    args: [u64; 6],
    pid: i32,
    headers: Vec<u8>,
    from: usize,
    done: Vec<DatagramMessage>,
) -> (step: DatagramCopyStep)
    requires
        args@[1] <= usize::MAX,
        headers_valid(headers@.len()),
        registers::words(MMSGHDR_WORDS * from) <= headers@.len(),
    ensures
        request_step_valid(step),
        forall|mem: Memory| #[trigger]
            request_step_outcome(step, mem) == sendmmsg_from(
                mem,
                machine,
                args@,
                pid,
                headers@,
                from as nat,
                message_views(done@),
            ),
{
    let mut at: usize = from;
    let mut messages = done;
    while words_len(MMSGHDR_WORDS * at) < headers.len()
        invariant
            args@[1] <= usize::MAX,
            headers_valid(headers@.len()),
            at <= MAX_SENDMMSG_MESSAGES,
            registers::words(MMSGHDR_WORDS * at) <= headers@.len(),
            forall|mem: Memory|
                #![trigger sendmmsg_from(
                    mem,
                    machine,
                    args@,
                    pid,
                    headers@,
                    from as nat,
                    message_views(done@),
                )]
                sendmmsg_from(mem, machine, args@, pid, headers@, from as nat, message_views(done@))
                    == sendmmsg_from(
                    mem,
                    machine,
                    args@,
                    pid,
                    headers@,
                    at as nat,
                    message_views(messages@),
                ),
        decreases headers.len() - registers::words(MMSGHDR_WORDS * at),
    {
        let started = copy_datagram_message(
            read_header(machine, headers.as_slice(), words_len(MMSGHDR_WORDS * at)),
        );
        let ghost header = header_at(
            machine,
            headers@,
            registers::words(MMSGHDR_WORDS * at),
        );
        assert forall|mem: Memory| #[trigger] message_in(mem, header) == step_outcome(
            started,
            mem,
        ) by {}
        match started {
            MessageStep::Read(copy) => {
                return DatagramCopyStep::Read(
                    DatagramCopy {
                        machine,
                        args,
                        pid,
                        stage: CopyStage::Messages { headers, at, messages, copy },
                    },
                );
            },
            MessageStep::Done(Ok(message)) => {
                let ghost before = message_views(messages@);
                messages.push(message);
                assert(message_views(messages@) =~= before.push(message@));
                at += 1;
            },
            MessageStep::Done(Err(error)) => {
                return DatagramCopyStep::Done(Err(error));
            },
        }
    }
    finish_sendmmsg(machine, args, pid, messages)
}

/// What a call that may send datagrams says in memory. One that sends none is
/// refused as unknown.
pub open spec fn call_in(
    mem: Memory,
    machine: Machine,
    calls: NotificationSyscalls,
    syscall: i64,
    args: Seq<u64>,
    pid: i32,
) -> RequestView {
    match syscalls::send_of(calls, syscall) {
        Some(call) => request_in(mem, machine, call, args, pid),
        None => Err(BrokerError::SystemCall { errno: machine.errors.enosys }),
    }
}

/// Starts the copy of a call that sends datagrams. A payload or a list of
/// messages that is too long and a call that sends none are refused before
/// anything is read.
pub fn copy_datagram_request(
    machine: Machine,
    calls: &NotificationSyscalls,
    syscall: i64,
    args: [u64; 6],
    pid: i32,
) -> (step: DatagramCopyStep)
    ensures
        request_step_valid(step),
        forall|mem: Memory| #[trigger]
            request_step_outcome(step, mem) == call_in(mem, machine, *calls, syscall, args@, pid),
        syscalls::send_of(*calls, syscall) is None ==> step == DatagramCopyStep::Done(
            Err(BrokerError::SystemCall { errno: machine.errors.enosys }),
        ),
        syscalls::send_of(*calls, syscall) == Some(SendSyscall::SendTo) && args@[2]
            > MAX_DATAGRAM_BYTES ==> step == DatagramCopyStep::Done(
            Err(BrokerError::SystemCall { errno: machine.errors.emsgsize }),
        ),
        syscalls::send_of(*calls, syscall) == Some(SendSyscall::SendMmsg)
            && args@[2] % 0x1_0000_0000 > MAX_SENDMMSG_MESSAGES ==> step
            == DatagramCopyStep::Done(Err(BrokerError::SystemCall { errno: sys::EINVAL })),
{
    match calls.datagram_send(syscall) {
        Some(call) => copy_send(machine, call, args, pid),
        None => DatagramCopyStep::Done(Err(BrokerError::SystemCall { errno: machine.errors.enosys })),
    }
}

/// Starts the copy of one of the calls that send datagrams.
fn copy_send(
    machine: Machine,
    call: SendSyscall,
    args: [u64; 6],
    pid: i32,
) -> (step: DatagramCopyStep)
    ensures
        request_step_valid(step),
        forall|mem: Memory| #[trigger]
            request_step_outcome(step, mem) == request_in(mem, machine, call, args@, pid),
        call == SendSyscall::SendTo && args@[2] > MAX_DATAGRAM_BYTES ==> step
            == DatagramCopyStep::Done(Err(BrokerError::SystemCall { errno: machine.errors.emsgsize })),
        call == SendSyscall::SendMmsg && args@[2] % 0x1_0000_0000 > MAX_SENDMMSG_MESSAGES ==> step
            == DatagramCopyStep::Done(Err(BrokerError::SystemCall { errno: sys::EINVAL })),
{
    match call {
        SendSyscall::SendTo => {
            if args[2] > MAX_DATAGRAM_BYTES as u64 {
                return DatagramCopyStep::Done(
                    Err(BrokerError::SystemCall { errno: machine.errors.emsgsize }),
                );
            }
            match read_child_exact(args[1], args[2] as usize) {
                Ok(Some(wanted)) => DatagramCopyStep::Read(
                    DatagramCopy { machine, args, pid, stage: CopyStage::Payload { wanted } },
                ),
                Ok(None) => {
                    let payload: Vec<u8> = Vec::new();
                    assert(payload@ =~= Seq::empty());
                    go_sendto_addr(machine, args, pid, payload)
                },
                Err(error) => DatagramCopyStep::Done(Err(error)),
            }
        },
        SendSyscall::SendMsg => match read_child_exact(args[1], words_len(MSGHDR_WORDS)) {
            Ok(Some(wanted)) => DatagramCopyStep::Read(
                DatagramCopy { machine, args, pid, stage: CopyStage::Header { wanted } },
            ),
            Ok(None) => DatagramCopyStep::Done(Err(BrokerError::BadAddress)),
            Err(error) => DatagramCopyStep::Done(Err(error)),
        },
        SendSyscall::SendMmsg => {
            let count = registers::syscall_u32(args[2]) as usize;
            if count > MAX_SENDMMSG_MESSAGES {
                return DatagramCopyStep::Done(
                    Err(BrokerError::SystemCall { errno: sys::EINVAL }),
                );
            }
            if usize_register(args[1]).is_none() {
                return DatagramCopyStep::Done(Err(BrokerError::BadAddress));
            }
            proof {
                lemma_headers(count as int);
            }
            match read_child_values(args[1], count, words_len(MMSGHDR_WORDS)) {
                Ok(Some(wanted)) => DatagramCopyStep::Read(
                    DatagramCopy { machine, args, pid, stage: CopyStage::Headers { wanted } },
                ),
                Ok(None) => {
                    let headers: Vec<u8> = Vec::new();
                    let messages: Vec<DatagramMessage> = Vec::new();
                    assert(headers@ =~= Seq::empty());
                    assert(message_views(messages@) =~= Seq::empty());
                    go_messages(machine, args, pid, headers, 0, messages)
                },
                Err(error) => DatagramCopyStep::Done(Err(error)),
            }
        },
    }
}

impl DatagramCopy {
    /// The pending read.
    pub fn wanted(&self) -> (wanted: MemoryRead)
        ensures
            wanted == wanted_by(*self),
    {
        match &self.stage {
            CopyStage::Payload { wanted } => *wanted,
            CopyStage::Addr { wanted, .. } => *wanted,
            CopyStage::Header { wanted } => *wanted,
            CopyStage::Message { copy, .. } => copy.wanted,
            CopyStage::Headers { wanted } => *wanted,
            CopyStage::Messages { copy, .. } => copy.wanted,
        }
    }

    /// Goes on with what the pending read copied.
    pub fn advance(self, reply: Vec<u8>) -> (step: DatagramCopyStep)
        requires
            request_valid(self),
        ensures
            request_step_valid(step),
            forall|mem: Memory|
                mem(wanted_by(self)) == Ok::<Seq<u8>, BrokerError>(reply@)
                    ==> #[trigger] request_step_outcome(step, mem) == request_outcome(self, mem),
    {
        let machine = self.machine;
        let args = self.args;
        let pid = self.pid;
        match self.stage {
            CopyStage::Payload { wanted } => {
                if reply.len() != wanted.len {
                    return DatagramCopyStep::Done(Err(BrokerError::BadAddress));
                }
                go_sendto_addr(machine, args, pid, reply)
            },
            CopyStage::Addr { payload, wanted } => {
                if reply.len() != wanted.len {
                    return DatagramCopyStep::Done(Err(BrokerError::BadAddress));
                }
                finish_sendto(machine, args, payload, Some(reply))
            },
            CopyStage::Header { wanted } => {
                if reply.len() != wanted.len {
                    return DatagramCopyStep::Done(Err(BrokerError::BadAddress));
                }
                go_sendmsg(machine, args, pid, reply)
            },
            CopyStage::Message { flags, copy } => {
                let ghost before = copy;
                let next = copy.advance(reply);
                assert forall|mem: Memory|
                    mem(before.wanted) == Ok::<Seq<u8>, BrokerError>(
                        reply@,
                    ) implies #[trigger] copy_outcome(before, mem) == step_outcome(next, mem) by {}
                match next {
                    MessageStep::Read(copy) => DatagramCopyStep::Read(
                        DatagramCopy { machine, args, pid, stage: CopyStage::Message { flags, copy } },
                    ),
                    MessageStep::Done(Ok(message)) => finish_sendmsg(flags, message),
                    MessageStep::Done(Err(error)) => DatagramCopyStep::Done(Err(error)),
                }
            },
            CopyStage::Headers { wanted } => {
                if reply.len() != wanted.len {
                    return DatagramCopyStep::Done(Err(BrokerError::BadAddress));
                }
                let messages: Vec<DatagramMessage> = Vec::new();
                assert(message_views(messages@) =~= Seq::empty());
                go_messages(machine, args, pid, reply, 0, messages)
            },
            CopyStage::Messages { headers, at, messages, copy } => {
                let ghost before = copy;
                let next = copy.advance(reply);
                assert forall|mem: Memory|
                    mem(before.wanted) == Ok::<Seq<u8>, BrokerError>(
                        reply@,
                    ) implies #[trigger] copy_outcome(before, mem) == step_outcome(next, mem) by {}
                match next {
                    MessageStep::Read(copy) => DatagramCopyStep::Read(
                        DatagramCopy {
                            machine,
                            args,
                            pid,
                            stage: CopyStage::Messages { headers, at, messages, copy },
                        },
                    ),
                    MessageStep::Done(Ok(message)) => {
                        let mut messages = messages;
                        let ghost before = message_views(messages@);
                        messages.push(message);
                        assert(message_views(messages@) =~= before.push(message@));
                        go_messages(machine, args, pid, headers, at + 1, messages)
                    },
                    MessageStep::Done(Err(error)) => DatagramCopyStep::Done(Err(error)),
                }
            },
        }
    }
}

/// The header of a datagram is seven words: where its address is and how long,
/// where its parts are and how many, where its control data is and how long, and
/// flags. The length of the address is the first half of its word.
pub proof fn law_headers_are_read_by_their_layout(machine: Machine, bytes: Seq<u8>, at: int)
    requires
        machine.counts == CountWidth::Word,
        0 <= at,
        at + 56 <= bytes.len(),
    ensures
        ({
            let width: int = if usize::BITS == 64 {
                8
            } else {
                4
            };
            let header = header_at(machine, bytes, at);
            &&& header.machine == machine
            &&& header.name == registers::native(
                machine.order,
                bytes.subrange(at, at + width),
            ) as u64
            &&& header.name_len == registers::native(
                machine.order,
                bytes.subrange(at + width, at + width + 4),
            ) as u32
            &&& header.iov == registers::native(
                machine.order,
                bytes.subrange(at + 2 * width, at + 3 * width),
            ) as u64
            &&& header.iov_count == registers::native(
                machine.order,
                bytes.subrange(at + 3 * width, at + 4 * width),
            ) as u64
            &&& header.control == registers::native(
                machine.order,
                bytes.subrange(at + 4 * width, at + 5 * width),
            ) as u64
            &&& header.control_len == registers::native(
                machine.order,
                bytes.subrange(at + 5 * width, at + 6 * width),
            ) as u64
        }),
{
}

/// Control data is passed on where each of its messages is as long as it says,
/// sets a hop limit, a traffic class or the size of segments, and the next one
/// stands at the next word.
pub proof fn law_each_control_message_is_checked(machine: Machine, control: Seq<u8>, offset: int)
    requires
        machine.counts == CountWidth::Word,
        0 <= offset,
        control.len() <= 65535,
    ensures
        ({
            let width: int = if usize::BITS == 64 {
                8
            } else {
                4
            };
            let left = control.len() - offset;
            let len = registers::native(
                machine.order,
                control.subrange(offset, offset + width),
            ) as int;
            let level = registers::signed(
                registers::native(
                    machine.order,
                    control.subrange(offset + width, offset + width + 4),
                ) as int,
            ) as i32;
            let kind = registers::signed(
                registers::native(
                    machine.order,
                    control.subrange(offset + width + 4, offset + width + 8),
                ) as int,
            ) as i32;
            let passed = (level == 0 && kind == 1) || (level == 0 && kind == 2) || (level == 41
                && kind == 52) || (level == 41 && kind == 67) || (level == 17 && kind == 103);
            &&& left <= 0 ==> controls_allowed(machine, control, offset)
            &&& 0 < left < width + 8 ==> !controls_allowed(machine, control, offset)
            &&& left >= width + 8 && (len < width + 8 || len > left) ==> !controls_allowed(
                machine,
                control,
                offset,
            )
            &&& left >= width + 8 && !passed ==> !controls_allowed(machine, control, offset)
            &&& left >= width + 8 && width + 8 <= len <= left && passed ==> (controls_allowed(
                machine,
                control,
                offset,
            ) <==> controls_allowed(
                machine,
                control,
                (offset + len + width - 1) / width * width,
            ))
        }),
{
    assert(usize::MAX >= 0xffff_ffff);
}

/// A send that does not copy is refused, and any other keeps its flags.
pub proof fn law_only_copying_sends_pass(machine: Machine, value: u64)
    ensures
        registers::int_register(value) & 0x400_0000 != 0 ==> send_flags(machine, value) == Err::<
            i32,
            _,
        >(BrokerError::SystemCall { errno: machine.errors.eopnotsupp }),
        registers::int_register(value) & 0x400_0000 == 0 ==> send_flags(machine, value) == Ok::<
            _,
            BrokerError,
        >(registers::int_register(value)),
{
}

/// A read of the memory of a process gives `bytes`, all that is asked for.
pub open spec fn reads_as(mem: Memory, base: u64, bytes: Seq<u8>) -> bool {
    0 < base <= usize::MAX && bytes.len() <= usize::MAX && mem(
        MemoryRead { base: base as usize, len: bytes.len() as usize },
    ) == Ok::<_, BrokerError>(bytes)
}

/// A `sendto` sends what stands in memory where its registers say, to the address
/// there, or to the peer where it gives none.
pub proof fn law_sendto_sends_what_memory_holds(
    mem: Memory,
    machine: Machine,
    args: Seq<u64>,
    pid: i32,
    payload: Seq<u8>,
    addr: Seq<u8>,
)
    requires
        args.len() == 6,
        args[2] == payload.len(),
        0 < payload.len() <= 65535,
        reads_as(mem, args[1], payload),
        registers::int_register(args[3]) & 0x400_0000 == 0,
        args[5] == addr.len(),
        addr.len() == 0 || 2 <= addr.len() <= 128 && reads_as(mem, args[4], addr),
    ensures
        request_in(mem, machine, SendSyscall::SendTo, args, pid) == Ok::<_, BrokerError>(
            (
                DatagramCall::SendTo { flags: registers::int_register(args[3]) },
                seq![
                    MessageView {
                        addr: if addr.len() == 0 {
                            None
                        } else {
                            Some(addr)
                        },
                        payload: seq![payload],
                        control: Seq::empty(),
                    },
                ],
            ),
        ),
{
}

proof fn lemma_payload_is_read(
    mem: Memory,
    header: MessageHeader,
    addr: Option<Seq<u8>>,
    iovecs: Seq<u8>,
    parts: Seq<Seq<u8>>,
    at: nat,
    total: int,
    payload: Seq<Seq<u8>>,
)
    requires
        header.control_len == 0,
        at <= parts.len(),
        iovecs.len() == registers::words(2 * parts.len() as int),
        payload == parts.take(at as int),
        0 <= total,
        total + summed(parts, at) <= 65535,
        forall|i: int|
            0 <= i < parts.len() ==> word(header.machine.order, iovecs, registers::words(2 * i + 1))
                == (#[trigger] parts[i]).len() && (parts[i].len() > 0 ==> reads_as(
                mem,
                word(header.machine.order, iovecs, registers::words(2 * i)) as u64,
                parts[i],
            )),
    ensures
        from_payload(mem, header, addr, iovecs, at, total, payload) == Ok::<_, BrokerError>(
            MessageView { addr, payload: parts, control: Seq::empty() },
        ),
    decreases parts.len() - at,
{
    if at < parts.len() {
        let part = parts[at as int];
        assert(registers::words(IOVEC_WORDS * at) < iovecs.len());
        assert(summed(parts, at) == part.len() + summed(parts, at + 1));
        lemma_summed(parts, at + 1);
        assert(word(header.machine.order, iovecs, registers::words(2 * at as int + 1))
            == part.len());
        if part.len() == 0 {
            assert(part =~= Seq::empty());
        }
        assert(payload.push(part) =~= parts.take(at as int + 1));
        lemma_payload_is_read(
            mem,
            header,
            addr,
            iovecs,
            parts,
            at + 1,
            total + part.len(),
            payload.push(part),
        );
    } else {
        assert(parts.take(at as int) =~= parts);
        assert(controls_allowed(header.machine, Seq::empty(), 0));
    }
}

/// How long parts are together, from `at` on.
pub open spec fn summed(parts: Seq<Seq<u8>>, at: nat) -> int
    decreases parts.len() - at,
{
    if at >= parts.len() {
        0
    } else {
        parts[at as int].len() + summed(parts, at + 1)
    }
}

proof fn lemma_summed(parts: Seq<Seq<u8>>, at: nat)
    ensures
        summed(parts, at) >= 0,
    decreases parts.len() - at,
{
    if at < parts.len() {
        lemma_summed(parts, at + 1);
    }
}

/// A datagram is what stands in memory where its header says: its address, and
/// each of its parts in their order, up to the largest datagram.
pub proof fn law_datagrams_hold_what_memory_holds(
    mem: Memory,
    header: MessageHeader,
    addr: Seq<u8>,
    iovecs: Seq<u8>,
    parts: Seq<Seq<u8>>,
)
    requires
        header.name_len == addr.len(),
        addr.len() == 0 || 2 <= addr.len() <= 128 && reads_as(mem, header.name, addr),
        header.iov_count == parts.len(),
        0 < parts.len() <= 1024,
        reads_as(mem, header.iov, iovecs),
        iovecs.len() == 2 * parts.len() * (if usize::BITS == 64 {
            8int
        } else {
            4int
        }),
        summed(parts, 0) <= 65535,
        header.control_len == 0,
        forall|i: int|
            0 <= i < parts.len() ==> word(header.machine.order, iovecs, registers::words(2 * i + 1))
                == (#[trigger] parts[i]).len() && (parts[i].len() > 0 ==> reads_as(
                mem,
                word(header.machine.order, iovecs, registers::words(2 * i)) as u64,
                parts[i],
            )),
    ensures
        message_in(mem, header) == Ok::<_, BrokerError>(
            MessageView {
                addr: if addr.len() == 0 {
                    None
                } else {
                    Some(addr)
                },
                payload: parts,
                control: Seq::empty(),
            },
        ),
{
    let name = if addr.len() == 0 {
        None
    } else {
        Some(addr)
    };
    lemma_iovecs(parts.len() as int);
    assert(parts.take(0) =~= Seq::empty());
    assert(iovecs.len() == registers::words(2 * parts.len() as int)) by {
        if usize::BITS == 64 {
            assert(2 * parts.len() * 8 == 8 * (2 * parts.len()));
        }
    }
    lemma_payload_is_read(mem, header, name, iovecs, parts, 0, 0, Seq::empty());
    assert(fetched(mem, iovecs_read(header)) == Ok::<_, BrokerError>(iovecs));
}

/// A datagram of too many parts, of too many bytes of control data, or of an
/// address that is none, is refused before that is read.
pub proof fn law_oversized_datagrams_are_refused(mem: Memory, header: MessageHeader)
    ensures
        header.name_len == 0 && header.iov_count > 1024 ==> message_in(mem, header) == Err::<
            MessageView,
            _,
        >(BrokerError::SystemCall { errno: header.machine.errors.emsgsize }),
        header.name_len == 0 && header.iov_count == 0 && header.control_len > 65535 ==> message_in(
            mem,
            header,
        ) == Err::<MessageView, _>(
            BrokerError::SystemCall { errno: header.machine.errors.enobufs },
        ),
        header.name_len > 128 ==> message_in(mem, header) == Err::<MessageView, _>(
            BrokerError::InvalidAddress,
        ),
{
}

/// The datagrams of a `sendmmsg` are copied one after the other, each from its
/// header, which stand eight words apart. The first that is refused refuses the
/// call.
pub proof fn law_each_datagram_of_a_call_is_copied(
    mem: Memory,
    machine: Machine,
    args: Seq<u64>,
    pid: i32,
    headers: Seq<u8>,
    messages: Seq<MessageView>,
    at: nat,
)
    requires
        at <= messages.len(),
        headers.len() == registers::words(8 * messages.len() as int),
        registers::int_register(args[3]) & 0x400_0000 == 0,
        forall|i: int|
            0 <= i < messages.len() ==> message_in(
                mem,
                header_at(machine, headers, registers::words(8 * i)),
            ) == Ok::<_, BrokerError>(#[trigger] messages[i]),
    ensures
        sendmmsg_from(mem, machine, args, pid, headers, at, messages.take(at as int)) == Ok::<
            _,
            BrokerError,
        >(
            (
                DatagramCall::SendMmsg {
                    flags: registers::int_register(args[3]),
                    output: MmsgOutput { pid, base: args[1] as usize },
                },
                messages,
            ),
        ),
    decreases messages.len() - at,
{
    if at < messages.len() {
        assert(messages.take(at as int).push(messages[at as int]) =~= messages.take(at as int + 1));
        law_each_datagram_of_a_call_is_copied(mem, machine, args, pid, headers, messages, at + 1);
    } else {
        assert(messages.take(at as int) =~= messages);
    }
}

/// A narrow count is the low half of its word, and a wide one the whole word.
pub proof fn law_counts_are_as_wide_as_they_are(machine: Machine, low: int, high: int)
    requires
        0 <= low < 0x1_0000_0000,
        0 <= high,
    ensures
        machine.counts == CountWidth::Narrow ==> counted(machine, low + 0x1_0000_0000 * high)
            == low,
        machine.counts == CountWidth::Word ==> counted(machine, low + 0x1_0000_0000 * high) == low
            + 0x1_0000_0000 * high,
{
}

/// A `sendmmsg` of up to a thousand and twenty-four datagrams is read as that
/// many headers of eight words, and a longer one is refused. A `sendto` of more
/// than any datagram holds is refused too.
pub proof fn law_long_calls_are_refused(machine: Machine, args: Seq<u64>)
    requires
        args.len() == 6,
        args[1] <= 0x7fff_ffff,
    ensures
        args[2] % 0x1_0000_0000 > 1024 ==> sendmmsg_read(args) == Err::<Option<MemoryRead>, _>(
            BrokerError::SystemCall { errno: 22 },
        ),
        args[2] % 0x1_0000_0000 == 0 ==> sendmmsg_read(args) == Ok::<
            Option<MemoryRead>,
            BrokerError,
        >(None),
        0 < args[2] % 0x1_0000_0000 <= 1024 && args[1] > 0 ==> sendmmsg_read(args) == Ok::<
            _,
            BrokerError,
        >(
            Some(
                MemoryRead {
                    base: args[1] as usize,
                    len: ((args[2] % 0x1_0000_0000) * (if usize::BITS == 64 {
                        64int
                    } else {
                        32int
                    })) as usize,
                },
            ),
        ),
        args[2] > 65535 ==> sendto_read(machine, args) == Err::<Option<MemoryRead>, _>(
            BrokerError::SystemCall { errno: machine.errors.emsgsize },
        ),
        0 < args[2] <= 65535 && args[1] > 0 ==> sendto_read(machine, args) == Ok::<_, BrokerError>(
            Some(MemoryRead { base: args[1] as usize, len: args[2] as usize }),
        ),
{
    assert(usize::MAX >= 0xffff_ffff);
    let count = (args[2] % 0x1_0000_0000) as int;
    lemma_headers(count);
    if usize::BITS == 64 {
        assert(registers::words(MMSGHDR_WORDS as int) == 64);
        assert(64 * count == count * 64);
    } else {
        assert(registers::words(MMSGHDR_WORDS as int) == 32);
        assert(32 * count == count * 32);
    }
}

} // verus!
