# route_deviation

Decides whether a user has deviated from a route, and proves with Verus what it decides.

- `src/deviation_detection.rs`: the tracking modes, the questions that a check asks about the steps
  ahead, and the check itself.
- `src/verdict.rs`: what a check decides, stated over mathematical values; `src/laws.rs`: what holds
  of every decision.
- `src/models.rs`: the route and the trip.
- `src/angles.rs`: normalizing and comparing directions.
- `src/binary64.rs`, `src/magnitude.rs`, `src/rounding.rs`: floating-point numbers as bit patterns,
  with comparison, addition, subtraction and remainder proved correctly rounded;
  `src/arithmetic_laws.rs`: what the operations do to the values.
- `app/`: measures distances and bearings on the sphere and carries the configuration and the
  outcome in serializable form.

A check runs in two steps. `inquiry` says for each of the next steps whether its line has to be
measured, from where, and within which tolerance the bearings of its segments are wanted.
`check_route_deviation` takes the measurements and decides.
