use ordinum::log_records::{
    make_header_format_map_array, ChunkPosition, WireFormat, BLOCK_SIZE, BLOCK_SIZE_MASK,
    HEADER_FORMAT_MAP_ARRAY_SIZE,
};
use ordinum::options::WriteBufferSize;
use ordinum::sync::spin_loop;
use ordinum::utils::cache_padded::CachePadded;
use ordinum::utils::radix::{
    ChunkSlab, Node16, Node256, Node4, Node48, NodeStore, Slot, SlotPtr,
};
use ordinum::utils::tagged_pointer::{
    available_bits, verify, Taggable, TaggedPointer1Bit, TaggedPointer2Bits, TaggedPointer3Bits,
    TAGGABLE_BITS,
};
use ordinum::utils::var_int::VarInt;
use ordinum::utils::{
    copy_at, read_u16_le, read_u32_be, read_u32_le, read_u64_be, read_u64_le, write_u16_le,
    write_u32_be, write_u32_le, write_u64_le,
};
use ordinum::version::superversion::SVCache;
use ordinum::wal::writer::SyncPermit;
use ordinum::wal::{SyncLogWaiter, SyncSem, SyncWait, SyncWaitStep, WalSyncResultState};

#[test]
fn want() {
    let value = 3;
    let result = VarInt::new(value);
    assert_eq!(result.as_slice().len(), 1);

    let value_2 = 257;
    let result_2 = VarInt::new(value_2);
    assert_eq!(result_2.as_slice().len(), 2);

    let value_3 = 3000000;
    let result_3 = VarInt::new(value_3);

    assert_eq!(result_3.as_slice().len(), 4);
    assert_eq!(VarInt::decode(result_3.as_slice()), (3000000, 4));
}

#[test]
fn size() {
    let value = 5;
    let varint = VarInt::new(value);

    assert_eq!(varint.size(), 1);

    let big_value = 3000000;
    let varint_big = VarInt::new(big_value);

    assert_eq!(varint_big.size(), 4);
}

#[test]
fn u32_max_uses_five_bytes_and_round_trips() {
    let varint = VarInt::new(u32::MAX);

    assert_eq!(varint.as_slice(), &[0xff, 0xff, 0xff, 0xff, 0x0f]);
    assert_eq!(varint.size(), VarInt::MAX_VARINT);
    assert_eq!(
        VarInt::decode(varint.as_slice()),
        (u32::MAX, VarInt::MAX_VARINT)
    );
}

#[test]
fn varint_size_boundaries_round_trip() {
    let cases = [
        (0, 1),
        (127, 1),
        (128, 2),
        (16_383, 2),
        (16_384, 3),
        (2_097_151, 3),
        (2_097_152, 4),
        (268_435_455, 4),
        (268_435_456, 5),
    ];

    for (value, expected_size) in cases {
        let varint = VarInt::new(value);

        assert_eq!(varint.size(), expected_size);
        assert_eq!(VarInt::decode(varint.as_slice()), (value, expected_size));
    }
}

#[test]
fn varint_stops_at_its_end() {
    assert_eq!(VarInt::decode(&[0x80, 0x01, 0xff]), (128, 2));
    assert_eq!(VarInt::decode(&[]), (0, 0));
    assert_eq!(VarInt::decode(&[0x85]), (5, 1));
}

#[test]
fn write_buffer_presets_are_measured_in_mebibytes() {
    assert_eq!(WriteBufferSize::Small.as_bytes(), 16 * 1024 * 1024);
    assert_eq!(WriteBufferSize::Default.as_bytes(), 64 * 1024 * 1024);
    assert_eq!(
        WriteBufferSize::Default.arena_policy().block_size,
        4 * 1024 * 1024
    );
}

#[test]
fn memtable_memory_usage() {
    for size in [
        WriteBufferSize::Small,
        WriteBufferSize::Medium,
        WriteBufferSize::Default,
        WriteBufferSize::Large,
    ] {
        let policy = size.arena_policy();
        assert_eq!(policy.cap, size.as_bytes());
        assert_eq!(policy.cap % policy.block_size, 0);
    }
    assert_eq!(WriteBufferSize::Medium.as_bytes(), 32 << 20);
    assert_eq!(WriteBufferSize::Large.arena_policy().block_size, 8 << 20);
}

#[test]
fn simple_sync_waiter() {
    let mut waiter = SyncLogWaiter::default();
    assert_eq!(waiter.state(), WalSyncResultState::Init);
    waiter.prime();
    let mut wait = SyncWait::new();
    for _ in 0..200 {
        assert_eq!(wait.observe(waiter.state()), SyncWaitStep::Spin);
    }
    assert_eq!(wait.observe(waiter.state()), SyncWaitStep::Block);
    waiter.signal(WalSyncResultState::IoError);
    assert_eq!(
        wait.observe(waiter.state()),
        SyncWaitStep::Done(Err(WalSyncResultState::IoError))
    );
    waiter.signal(WalSyncResultState::SyncDone);
    assert_eq!(wait.observe(waiter.state()), SyncWaitStep::Done(Ok(())));
    assert!(waiter.is_terminal(WalSyncResultState::WalError));
    assert!(!waiter.is_terminal(WalSyncResultState::Primed));
    assert_eq!(SyncLogWaiter::to_result(WalSyncResultState::Init), None);
}

#[test]
fn sync_states_by_number() {
    for code in 0u8..5 {
        assert_eq!(u8::from(WalSyncResultState::from(code)), code);
    }
    assert_eq!(WalSyncResultState::from(2), WalSyncResultState::IoError);
    assert_eq!(SyncSem::default().sync_occupancy, 0);
    assert_eq!(SyncPermit::default().sync_occupancy, 0);
}

#[test]
fn array_map() {
    let slice: [usize; 5] = std::array::from_fn(|i| i + 1);

    let mut vec: Vec<usize> = Vec::new();

    println!("{:?}", vec);

    slice.map(|x| vec.push(x));

    println!("{:?}", vec);

    // The slots of a chunk become free in their order.
    let mut slab: ChunkSlab<u32, 5> = ChunkSlab::new();
    slab.allocate_chunk();
    let free: Vec<usize> = slab.free.iter().map(|at| at.slot + 1).collect();
    assert_eq!(free, vec);
}

#[test]
fn slabs_grow_by_chunks() {
    let mut slab: ChunkSlab<u8, 3> = ChunkSlab::new();
    assert!(slab.chunks.is_empty());
    slab.allocate_chunk();
    slab.allocate_chunk();
    assert_eq!(slab.chunks.len(), 2);
    assert_eq!(slab.free.len(), 6);
    assert_eq!(slab.free[3], SlotPtr { chunk: 1, slot: 0 });
    assert!(slab.chunks.iter().flatten().all(|slot| !slot.occupied && slot.value.is_none()));
}

#[test]
fn size_estimates() {
    println!("{}", std::mem::size_of::<Slot<Node4>>());

    let target = 16 * 1024;
    let chunk_est = target / std::mem::size_of::<Slot<Node4>>();
    println!("{}", chunk_est);
}

#[test]
fn new_nodes_have_no_children() {
    assert_eq!(Node4::default().children.children, [None; 4]);
    assert_eq!(Node4::default().children.edges, [0; 4]);
    assert_eq!(Node16::default().children.edges, [0; 16]);
    assert_eq!(Node48::default().children.edges, [0; 48]);
    assert_eq!(Node16::default().children.edges, [0u8; 16]);
    assert_eq!(Node48::default().children.children.len(), 256);
    assert_eq!(Node256::default().header.children, 0);
    assert!(Node4::default().header.terminal.is_none());
    let store: NodeStore<u8> = NodeStore::new();
    assert!(store.leaf.free.is_empty());
}

fn address<T>(object: &T) -> usize {
    let text = format!("{:p}", object);
    usize::from_str_radix(text.trim_start_matches("0x"), 16).unwrap()
}

#[test]
fn full_binary_ptr() {
    let object = Box::new(0u32);
    let address = address(&*object);
    let mask: usize = 0x1;
    let width = usize::BITS as usize;

    println!("ptr:  {address:0width$b}");
    println!("mask: {mask:0width$b}");
    println!("tag:  {:0width$b}", address & !mask);
    assert_eq!(address & mask, 0);
}

#[test]
fn alignment() {
    let width = usize::BITS as usize;

    let one: u8 = 1;
    let two: u16 = 1;
    let three: u32 = 1;
    let four: u64 = 4;

    println!("one   {:0width$b}", address(&one));
    println!("one   trailing zeroes {}", std::mem::align_of::<u8>().trailing_zeros());
    println!("two   {:0width$b}", address(&two));
    println!("two   trailing zeroes {}", std::mem::align_of::<u16>().trailing_zeros());
    println!("three {:0width$b}", address(&three));
    println!("three trailing zeroes {}", std::mem::align_of::<u32>().trailing_zeros());
    println!("four  {:0width$b}", address(&four));
    println!("four  trailing zeroes {}", std::mem::align_of::<u64>().trailing_zeros());
    assert_eq!(TAGGABLE_BITS::from_alignment::<u16>(), 1);
    assert_eq!(TAGGABLE_BITS::from_alignment::<u32>(), 2);
    assert_eq!(TAGGABLE_BITS::from_alignment::<u64>(), 3);
    assert_eq!(TAGGABLE_BITS::of_alignment(16), 4);
    assert_eq!(TAGGABLE_BITS::of_alignment(1), 0);
}

struct Foo {
    num: u32,
}

impl Taggable for Foo {
    fn tag_bits() -> u32 {
        TAGGABLE_BITS::from_alignment::<Foo>()
    }
}

#[test]
fn align_of_t() {
    println!("{}", std::mem::align_of::<Foo>());

    let foo = Box::new(Foo { num: 10 });

    let at = address(&*foo);
    let tagged = TaggedPointer1Bit::<Foo>::new(at).unwrap();
    assert_eq!(tagged.ptr, at);
    assert_eq!(foo.num, 10);
    assert_eq!(available_bits(&*foo), 2);
    assert!(TaggedPointer2Bits::<Foo>::new(at).is_some());
    assert!(TaggedPointer3Bits::<Foo>::new(at).is_none());
    assert!(!verify::<Foo, 0>());
}

#[test]
fn is_taggable() {
    println!("{}", TAGGABLE_BITS::is_taggable(4));
    assert!(TAGGABLE_BITS::is_taggable(4));
    assert!(!TAGGABLE_BITS::is_taggable(0));
    assert!(!TAGGABLE_BITS::is_taggable(5));
}

#[test]
fn padded_values_are_reached() {
    let padded = CachePadded::new(41u64);
    assert_eq!(*padded + 1, 42);
}

#[test]
fn bytes_in_both_orders() {
    let bytes = [1u8, 2, 3, 4, 5, 6, 7, 8];
    assert_eq!(read_u16_le(&bytes), 0x0201);
    assert_eq!(read_u32_le(&bytes), 0x0403_0201);
    assert_eq!(read_u64_le(&bytes), 0x0807_0605_0403_0201);
    assert_eq!(read_u32_be(&bytes), 0x0102_0304);
    assert_eq!(read_u64_be(&bytes), 0x0102_0304_0506_0708);
    let mut target = vec![0u8; 10];
    write_u16_le(&mut target, 1, 0xaabb);
    assert_eq!(target, [0, 0xbb, 0xaa, 0, 0, 0, 0, 0, 0, 0]);
    write_u32_le(&mut target, 6, 0x0102_0304);
    assert_eq!(target[6..], [4, 3, 2, 1]);
    write_u32_be(&mut target, 0, 0x0102_0304);
    assert_eq!(target[..4], [1, 2, 3, 4]);
    write_u64_le(&mut target, 2, u64::MAX);
    assert_eq!(target[2..], [0xff; 8]);
    copy_at(&mut target, 3, b"abc");
    assert_eq!(target[2..7], [0xff, b'a', b'b', b'c', 0xff]);
}

#[test]
fn chunk_types_tell_position_and_format() {
    let formats = make_header_format_map_array();
    assert_eq!(formats.len(), HEADER_FORMAT_MAP_ARRAY_SIZE);
    assert_eq!(formats[0].chunk_position, ChunkPosition::InvalidType);
    assert_eq!(formats[0].wire_format, WireFormat::InvalidFormat);
    assert_eq!(formats[4].chunk_position, ChunkPosition::LastType);
    assert_eq!(formats[4].header_size, 7);
    assert_eq!(formats[5].chunk_position, ChunkPosition::FullType);
    assert_eq!(formats[7].wire_format, WireFormat::Recyclable);
    assert_eq!(formats[7].header_size, 11);
    assert_eq!(formats[10].chunk_position, ChunkPosition::FirstType);
    assert_eq!(formats[11].chunk_position, ChunkPosition::MiddleType);
    assert_eq!(formats[12].wire_format, WireFormat::WALSync);
    assert_eq!(formats[12].header_size, 19);
    assert_eq!(BLOCK_SIZE, 32768);
    assert_eq!(BLOCK_SIZE_MASK, 32767);
}

#[test]
fn new_caches_are_empty() {
    spin_loop();
    assert!(SVCache::new().cache.is_none());
    assert!(SVCache::<9>::new_with_size().cache.is_none());
}
