# my_sb_node

The state of a message-broker node, written in Verus: queues of message ids
kept as sorted ranges, the sub pages that hold published messages in memory,
the queues of each topic with their delivery attempts, the topics' publishers,
and the sessions of TCP, HTTP and test clients. The functions in `src/`
carry contracts that Verus proves, except a few small trusted wrappers of
outside calls (`Arc::clone`, `Vec::shrink_to`, the clock, and `uuid`),
whose contracts are believed; the public `lemma_*` proof functions
state the properties that span several calls (a published message reads back,
garbage collection keeps what a queue still needs, delivery takes the
smallest ids first, and so on).

Layout:

- `src/queue_with_intervals.rs` – a set of ids stored as separated ranges.
- `src/messages/` – messages, sub pages and the list of sub pages in memory.
- `src/queues/` – a topic's queues, delivery attempts and delivery steps.
- `src/topics/` – a topic's state, its publishers and the topic snapshots.
- `src/sessions/` – TCP, HTTP and test sessions and their lists.
- `src/ui/` – the rolling KPI history shown by the monitoring page.
- `src/utils/` – the clock and the minimum of optional ids.
- `app/` – settings read from disk, locks shared between tasks, the delivery
  loop that hands messages to subscribers, and number formatting.
- `tests/` – tests run against the compiled library.
