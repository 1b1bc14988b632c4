# tonic_xds

Client-side building blocks of an xDS gRPC channel. The rules are in `src/`, in Verus, each with a
contract that is proved; `app/` holds the `tower` services, background tasks and sockets around them.

- `endpoint`: endpoint addresses, the load of an endpoint and the outcomes of calls to it
- `cluster`: inside one cluster, picking an endpoint, balancing over the endpoints, classifying the
  results of calls and ejecting endpoints that fail too often; the registry of cluster clients
- `lb`: balancing over endpoints that are discovered in batches, and the service that goes by routing
  decisions
- `loadbalance`: the lifecycle of endpoint connections, and balancing over those that are ready
- `retry`: retrying calls whose connection failed
- `channel_state`: whether a channel is connected, and who is told
- `greeter`: services to try a channel with
- `metric`, `status`, `number`, `sampling`, `sequences`, `key`: what the others share
- `ext`: declarations of outside items; what they claim is not proved but taken from the sources of
  the crates

Services, connections and clients stay with their owner, who gives each a number, its handle; the
rules speak of handles. Time is a number of nanoseconds.

The laws that relate several operations are public proof functions next to the operations, such as
`consuming_loses_nothing`, `the_balancer_follows_the_topology`, `an_ejection_lasts_its_time`,
`ejections_and_restorations_balance`, `ejections_stay_under_the_maximum` and `retries_end`. Where the
result of an outside call rests on chance or on other tasks, a contract says of which call it is the
result, and on what.
